use epd_photoframe_server::config::ColorConfig;
use epd_photoframe_server::drawable::{walk, Drawable, Face, LaidOut};

fn text(content: &str) -> Drawable {
    Drawable::Text {
        content: content.to_string(),
        size: 100,
        color: ColorConfig::rgb(0, 0, 0),
    }
}

fn laid(x: i32, y: i32, drawable: Option<Drawable>, children: Vec<LaidOut>) -> LaidOut {
    LaidOut { x, y, width: 10, height: 5, drawable, children }
}

#[test]
fn parents_are_visited_before_children() {
    let background = Drawable::Background { color: ColorConfig::rgb(9, 9, 9), radius: 60 };
    let tree = laid(
        1,
        2,
        Some(background),
        vec![
            laid(3, 4, Some(text("a")), Vec::new()),
            laid(5, 6, None, vec![laid(-1, 0, Some(text("b")), Vec::new())]),
            laid(7, 8, Some(text("c")), Vec::new()),
        ],
    );
    let visits = walk(&tree, 100, 200);
    let seen: Vec<(i64, i64, String)> = visits
        .iter()
        .map(|v| {
            let name = match v.drawable {
                Drawable::Text { content, .. } => content.clone(),
                _ => "background".to_string(),
            };
            (v.x, v.y, name)
        })
        .collect();
    assert_eq!(
        seen,
        vec![
            (101, 202, "background".to_string()),
            (104, 206, "a".to_string()),
            (105, 208, "b".to_string()),
            (108, 210, "c".to_string()),
        ]
    );
    assert_eq!((visits[0].width, visits[0].height), (10, 5));
}

#[test]
fn a_tree_without_drawables_paints_nothing() {
    assert!(walk(&laid(0, 0, None, vec![laid(0, 0, None, Vec::new())]), 0, 0).is_empty());
}

#[test]
fn positions_stop_at_their_limits() {
    let tree = laid(i32::MAX, i32::MIN, Some(text("a")), Vec::new());
    let visits = walk(&tree, i64::MAX - 1, i64::MIN + 1);
    assert_eq!((visits[0].x, visits[0].y), (i64::MAX, i64::MIN));
}

#[test]
fn runs_of_each_drawable() {
    let color = ColorConfig::rgb(0, 0, 0);
    let describe = |d: &Drawable| -> Vec<(Face, String, u32)> {
        d.runs().into_iter().map(|r| (r.face, r.text, r.size)).collect()
    };
    assert_eq!(describe(&text("hi")), vec![(Face::Text, "hi".to_string(), 100)]);
    let icon = Drawable::Icon { glyph: '\u{F00D}', size: 93, color };
    assert_eq!(describe(&icon), vec![(Face::Icon, "\u{F00D}".to_string(), 93)]);
    assert_eq!(icon.run_gap(), 0);
    let both = Drawable::IconText {
        icon: '\u{F013}',
        icon_size: 130,
        gap: 30,
        text: "8–18°C".to_string(),
        text_size: 100,
        color,
    };
    assert_eq!(
        describe(&both),
        vec![
            (Face::Icon, "\u{F013}".to_string(), 130),
            (Face::Text, "8–18°C".to_string(), 100),
        ]
    );
    assert_eq!(both.run_gap(), 30);
    assert!(describe(&Drawable::Background { color, radius: 1 }).is_empty());
}
