# epd_photoframe_server

HTTP server that turns photos from shared albums into dithered images for
e-paper photo frames. Each configured screen is polled by a device, which gets
back an image and a `Refresh` header telling it when to come back.

- `src/` is the verified library: reading the share page and noticing new
  photos (`album`), shuffling, navigation and rotation (`screen_state`),
  schedules and time zones (`schedule`), moments, spans and when to come back
  (`clock`, `span`, `request`), colours and settings (`color`, `alpha`,
  `config`), padding a photo to the screen (`background`, `raster`, `webp`), what the
  overlays show and where (`infobox`, `drawable`, `battery_indicator`,
  `placement`), the forecast (`weather`), what is published over MQTT (`mqtt`),
  requests to an Immich server (`immich`), and text (`text`).
- `app/` is the program around it: the web server, HTTP and MQTT clients, the
  configuration file, fonts, and painting.
- `tests/` runs the library.

Contracts are stated over sequences of characters, integers and plain records.
Functions named `law_...` state what holds across several functions. What the
library takes from other crates without proof stands in small functions marked
`external_body`, each with a comment on what is claimed.
