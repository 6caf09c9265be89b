//! The photos of a shared album: finding them on the share page, noticing which
//! are new, and asking for one in a given size.

use crate::clock::{Duration, NANOS_PER_SEC};
use crate::config::FitMethod;
use crate::text::{begins_with, chars_of, decimal, decimal_of, joined, same_chars, string_of};
use vstd::prelude::*;
use vstd::slice::slice_subrange;

verus! {

/// How long a scrape of the share page is used, in seconds.
pub const CACHE_TTL_SECS: u64 = 3_600;

// ----- Photo URLs ------------------------------------------------------------------------------

/// Where a photo's URL begins.
pub open spec fn url_prefix() -> Seq<char> {
    "https://lh3.googleusercontent.com/pw/"@
}

/// A character of a photo's id.
pub open spec fn id_char(c: char) -> bool {
    ||| 'a' <= c <= 'z'
    ||| 'A' <= c <= 'Z'
    ||| '0' <= c <= '9'
    ||| c == '_'
    ||| c == '-'
}

/// How many characters of an id `s` begins with.
pub open spec fn id_length(s: Seq<char>) -> nat
    decreases s.len(),
{
    if s.len() > 0 && id_char(s[0]) {
        1 + id_length(s.drop_first())
    } else {
        0
    }
}

/// The photo URLs on a page, from left to right: each the URL prefix with the
/// longest id that follows it. A prefix without an id is none, and what belongs
/// to one URL is not looked at again.
pub open spec fn photo_urls(page: Seq<char>) -> Seq<Seq<char>>
    decreases page.len(),
    via photo_urls_shrinks
{
    if page.len() == 0 {
        Seq::empty()
    } else if begins_with(page, url_prefix()) {
        let id = id_length(page.skip(url_prefix().len() as int));
        let end = url_prefix().len() + id;
        if id > 0 {
            seq![page.take(end as int)] + photo_urls(page.skip(end as int))
        } else {
            photo_urls(page.skip(end as int))
        }
    } else {
        photo_urls(page.drop_first())
    }
}

#[via_fn]
proof fn photo_urls_shrinks(page: Seq<char>) {
    if page.len() > 0 && begins_with(page, url_prefix()) {
        reveal_strlit("https://lh3.googleusercontent.com/pw/");
        lemma_id_length(page.skip(url_prefix().len() as int));
    }
}

proof fn lemma_id_length(s: Seq<char>)
    ensures
        id_length(s) <= s.len(),
        forall|i: int| 0 <= i < id_length(s) ==> id_char(#[trigger] s[i]),
        id_length(s) < s.len() ==> !id_char(s[id_length(s) as int]),
    decreases s.len(),
{
    if s.len() > 0 && id_char(s[0]) {
        lemma_id_length(s.drop_first());
        let k = id_length(s.drop_first());
        assert forall|i: int| 0 <= i < id_length(s) implies id_char(#[trigger] s[i]) by {
            if i > 0 {
                assert(s[i] == s.drop_first()[i - 1]);
            }
        }
        if k + 1 < s.len() {
            assert(s[k as int + 1] == s.drop_first()[k as int]);
        }
    }
}

/// The items of `s` without those that stood earlier in it.
pub open spec fn first_occurrences(s: Seq<Seq<char>>) -> Seq<Seq<char>>
    decreases s.len(),
{
    if s.len() == 0 {
        s
    } else {
        let before = first_occurrences(s.drop_last());
        if before.contains(s.last()) {
            before
        } else {
            before.push(s.last())
        }
    }
}

/// The texts of a list of strings.
pub open spec fn texts(list: Seq<String>) -> Seq<Seq<char>> {
    list.map_values(|s: String| s@)
}

fn is_id_char(c: char) -> (r: bool)
    ensures
        r == id_char(c),
{
    ('a' <= c && c <= 'z') || ('A' <= c && c <= 'Z') || ('0' <= c && c <= '9') || c == '_' || c
        == '-'
}

fn leading_id(chars: &[char]) -> (r: usize)
    ensures
        r == id_length(chars@),
        r <= chars@.len(),
{
    let n: usize = chars.len();
    let mut i: usize = 0;
    assert(chars@.skip(0) == chars@);
    while i < n && is_id_char(chars[i])
        invariant
            n == chars@.len(),
            i <= n,
            id_length(chars@) == i + id_length(chars@.skip(i as int)),
        decreases n - i,
    {
        assert(chars@.skip(i as int).drop_first() == chars@.skip(i + 1));
        i = i + 1;
    }
    i
}

/// Whether a list holds a text.
pub fn holds_text(list: &[String], text: &str) -> (r: bool)
    ensures
        r == texts(list@).contains(text@),
{
    let n: usize = list.len();
    let wanted = chars_of(text);
    let mut i: usize = 0;
    while i < n
        invariant
            n == list@.len(),
            i <= n,
            wanted@ == text@,
            forall|k: int| 0 <= k < i ==> texts(list@)[k] != text@,
        decreases n - i,
    {
        let have = chars_of(list[i].as_str());
        assert(texts(list@)[i as int] == have@);
        if same_chars(have.as_slice(), wanted.as_slice()) {
            return true;
        }
        i = i + 1;
    }
    false
}

proof fn lemma_first_occurrences_step(s: Seq<Seq<char>>, item: Seq<char>)
    ensures
        first_occurrences(s.push(item)) == if first_occurrences(s).contains(item) {
            first_occurrences(s)
        } else {
            first_occurrences(s).push(item)
        },
{
    assert(s.push(item).drop_last() == s);
}

/// Pull `https://lh3.googleusercontent.com/pw/<id>` URLs out of the share-page
/// HTML. These are the inline-JSON photo base URLs — the owner's avatar
/// (under `/a/`) and other non-photo assets don't match the `/pw/` prefix.
pub fn extract_photo_urls(html: &str) -> (r: Vec<String>)
    ensures
        texts(r@) == first_occurrences(photo_urls(html@)),
{
    proof {
        reveal_strlit("https://lh3.googleusercontent.com/pw/");
    }
    let page = chars_of(html);
    let prefix = chars_of("https://lh3.googleusercontent.com/pw/");
    let n: usize = page.len();
    let p: usize = prefix.len();
    let mut out: Vec<String> = Vec::new();
    let mut i: usize = 0;
    let ghost mut found: Seq<Seq<char>> = Seq::empty();
    assert(page@.skip(0) == page@);
    assert(texts(out@) == first_occurrences(found));
    assert(found + photo_urls(page@) == photo_urls(page@));
    while i < n
        invariant
            page@ == html@,
            n == page@.len(),
            prefix@ == url_prefix(),
            p == prefix@.len(),
            p > 0,
            i <= n,
            texts(out@) == first_occurrences(found),
            found + photo_urls(page@.skip(i as int)) == photo_urls(page@),
        decreases n - i,
    {
        let ghost here = page@.skip(i as int);
        let at_prefix: bool = n - i >= p && same_chars(
            slice_subrange(page.as_slice(), i, i + p),
            prefix.as_slice(),
        );
        proof {
            if n - i >= p {
                assert(page@.subrange(i as int, i + p) == here.take(p as int));
            }
            assert(at_prefix == begins_with(here, url_prefix()));
        }
        if at_prefix {
            assert(page@.subrange(i + p, n as int) == here.skip(p as int));
            let id: usize = leading_id(slice_subrange(page.as_slice(), i + p, n));
            let end: usize = i + p + id;
            assert(here.skip(p + id) == page@.skip(end as int));
            if id > 0 {
                let url: String = string_of(slice_subrange(page.as_slice(), i, end));
                assert(url@ == here.take(p + id));
                let ghost rest = photo_urls(page@.skip(end as int));
                let ghost before = texts(out@);
                if !holds_text(out.as_slice(), url.as_str()) {
                    let ghost added = url@;
                    out.push(url);
                    assert(texts(out@) == before.push(added));
                }
                proof {
                    let u = here.take(p + id);
                    lemma_first_occurrences_step(found, u);
                    assert(found + (seq![u] + rest) == found.push(u) + rest);
                    found = found.push(u);
                }
            }
            i = end;
        } else {
            assert(here.drop_first() == page@.skip(i + 1));
            i = i + 1;
        }
    }
    assert(photo_urls(page@.skip(n as int)) == Seq::<Seq<char>>::empty());
    assert(found + Seq::<Seq<char>>::empty() == found);
    out
}

// ----- New photos --------------------------------------------------------------------------------

/// The indices in `current` of the texts that are not in `previous`, ascending.
pub open spec fn new_indices(previous: Seq<Seq<char>>, current: Seq<Seq<char>>) -> Seq<usize>
    decreases current.len(),
{
    if current.len() == 0 {
        Seq::empty()
    } else {
        let before = new_indices(previous, current.drop_last());
        if previous.contains(current.last()) {
            before
        } else {
            before.push((current.len() - 1) as usize)
        }
    }
}

/// Indices in `current` whose URL does not appear in `previous`.
pub fn new_indices_in(previous: &[String], current: &[String]) -> (r: Vec<usize>)
    ensures
        r@ == new_indices(texts(previous@), texts(current@)),
{
    let n: usize = current.len();
    let mut out: Vec<usize> = Vec::new();
    let mut i: usize = 0;
    assert(texts(current@).take(0) == Seq::<Seq<char>>::empty());
    while i < n
        invariant
            n == current@.len(),
            i <= n,
            out@ == new_indices(texts(previous@), texts(current@).take(i as int)),
        decreases n - i,
    {
        assert(texts(current@).take(i + 1).drop_last() == texts(current@).take(i as int));
        if !holds_text(previous, current[i].as_str()) {
            out.push(i);
        }
        i = i + 1;
    }
    assert(texts(current@).take(n as int) == texts(current@));
    out
}

// ----- The album as last seen ----------------------------------------------------------------------

/// Why there is no photo to show.
#[derive(Debug, Clone, Copy, PartialEq, Eq, Structural)]
pub enum AlbumError {
    /// The share page has no photo on it.
    NoPhotos,
    /// There is no photo of that index. Holds the index and how many there are.
    OutOfRange(usize, usize),
}

/// The message for an error.
pub open spec fn album_message(e: AlbumError) -> Seq<char> {
    match e {
        AlbumError::NoPhotos => "no photos found on share page — is the album public?"@,
        AlbumError::OutOfRange(index, of) => "selector returned out-of-range index "@ + decimal(
            index as nat,
        ) + "/"@ + decimal(of as nat),
    }
}

impl AlbumError {
    /// What went wrong, in words.
    pub fn message(&self) -> (r: String)
        ensures
            r@ == album_message(*self),
    {
        match self {
            AlbumError::NoPhotos => "no photos found on share page — is the album public?".to_owned(),
            AlbumError::OutOfRange(index, of) => joined(
                joined(
                    joined(
                        "selector returned out-of-range index ".to_owned(),
                        decimal_of(*index as u64).as_str(),
                    ),
                    "/",
                ),
                decimal_of(*of as u64).as_str(),
            ),
        }
    }
}

/// The photos found on a share page: at least one.
#[derive(Debug)]
pub struct Album {
    urls: Vec<String>,
}

impl View for Album {
    type V = Seq<Seq<char>>;

    /// The base URLs of the photos.
    closed spec fn view(&self) -> Seq<Seq<char>> {
        texts(self.urls@)
    }
}

/// Whether a scrape of that age is used for a request; `fresh` asks for a new one.
pub open spec fn cache_serves(age: Option<int>, fresh: bool) -> bool {
    !fresh && (age matches Some(a) && a < CACHE_TTL_SECS * NANOS_PER_SEC)
}

/// Whether the share page has to be fetched, where the last scrape is `age` old.
pub fn needs_scrape(age: Option<Duration>, fresh: bool) -> (r: bool)
    ensures
        r == !cache_serves(
            match age {
                Some(a) => Some(a@),
                None => None,
            },
            fresh,
        ),
{
    if fresh {
        return true;
    }
    match age {
        Some(a) => {
            let secs: u64 = a.as_secs();
            proof {
                vstd::arithmetic::div_mod::lemma_fundamental_div_mod(a@, NANOS_PER_SEC as int);
            }
            secs >= CACHE_TTL_SECS
        },
        None => true,
    }
}

/// The photos on a page that are new, where `seen` is what was there before; nothing
/// counts as new on the first scrape.
pub open spec fn new_to(seen: Option<Seq<Seq<char>>>, page: Seq<char>) -> Seq<usize> {
    match seen {
        Some(previous) => new_indices(previous, first_occurrences(photo_urls(page))),
        None => Seq::empty(),
    }
}

/// The size and fit that a photo is asked for in, as its URL has them.
pub open spec fn size_suffix_text(width: u32, height: u32, fit: FitMethod) -> Seq<char> {
    "=w"@ + decimal(width as nat) + "-h"@ + decimal(height as nat) + match fit {
        FitMethod::Crop => "-c"@,
        FitMethod::SmartCrop => "-p"@,
        FitMethod::Resize => "-s"@,
        FitMethod::Contain => ""@,
    }
}

/// The end of a photo's URL that has it resized to fit.
pub fn size_suffix(width: u32, height: u32, fit: &FitMethod) -> (r: String)
    ensures
        r@ == size_suffix_text(width, height, *fit),
{
    let modifier: &str = match fit {
        FitMethod::Crop => "-c",
        FitMethod::SmartCrop => "-p",
        FitMethod::Resize => "-s",
        FitMethod::Contain => "",
    };
    let w = decimal_of(width as u64);
    let h = decimal_of(height as u64);
    joined(joined(joined(joined("=w".to_owned(), w.as_str()), "-h"), h.as_str()), modifier)
}

impl Album {
    #[verifier::type_invariant]
    spec fn not_empty(self) -> bool {
        self.urls@.len() > 0
    }

    /// Reads a share page, and tells which of its photos were not there in
    /// `previous`.
    pub fn read(previous: Option<&Album>, html: &str) -> (r: Result<(Album, Vec<usize>), AlbumError>)
        ensures
            match r {
                Ok((album, new)) => {
                    &&& photo_urls(html@).len() > 0
                    &&& album@ == first_occurrences(photo_urls(html@))
                    &&& new@ == new_to(
                        match previous {
                            Some(p) => Some(p@),
                            None => None,
                        },
                        html@,
                    )
                },
                Err(e) => e == AlbumError::NoPhotos && photo_urls(html@).len() == 0,
            },
    {
        let urls = extract_photo_urls(html);
        proof {
            law_dedupe_keeps_what_is_there(photo_urls(html@));
        }
        assert(texts(urls@).len() == urls@.len());
        if urls.len() == 0 {
            proof {
                if photo_urls(html@).len() > 0 {
                    assert(first_occurrences(photo_urls(html@)).contains(photo_urls(html@)[0]));
                }
            }
            return Err(AlbumError::NoPhotos);
        }
        proof {
            assert(first_occurrences(photo_urls(html@)).contains(texts(urls@)[0]));
            assert(photo_urls(html@).contains(texts(urls@)[0]));
        }
        let new = match previous {
            Some(p) => new_indices_in(p.urls.as_slice(), urls.as_slice()),
            None => Vec::new(),
        };
        Ok((Album { urls }, new))
    }

    /// How many photos there are.
    pub fn len(&self) -> (r: usize)
        ensures
            r == self@.len(),
            r > 0,
    {
        proof {
            use_type_invariant(self);
        }
        self.urls.len()
    }

    /// The URL to fetch the photo of that index from, in that size.
    pub fn photo_url(&self, index: usize, width: u32, height: u32, fit: &FitMethod) -> (r: Result<
        String,
        AlbumError,
    >)
        ensures
            match r {
                Ok(url) => index < self@.len() && url@ == self@[index as int] + size_suffix_text(
                    width,
                    height,
                    *fit,
                ),
                Err(e) => index >= self@.len() && e == AlbumError::OutOfRange(
                    index,
                    self@.len() as usize,
                ),
            },
    {
        if index >= self.urls.len() {
            return Err(AlbumError::OutOfRange(index, self.urls.len()));
        }
        let suffix = size_suffix(width, height, fit);
        Ok(joined(self.urls[index].clone(), suffix.as_str()))
    }
}

/// The album as last read, if it was.
#[derive(Debug)]
pub struct AlbumCache {
    album: Option<Album>,
}

impl View for AlbumCache {
    type V = Option<Seq<Seq<char>>>;

    /// The base URLs of the photos, if any were read.
    closed spec fn view(&self) -> Option<Seq<Seq<char>>> {
        match self.album {
            Some(a) => Some(a@),
            None => None,
        }
    }
}

impl AlbumCache {
    /// Nothing read yet.
    pub fn new() -> (r: Self)
        ensures
            r@ is None,
    {
        AlbumCache { album: None }
    }

    /// The album, if one was read.
    pub fn album(&self) -> (r: Option<&Album>)
        ensures
            match r {
                Some(a) => self@ == Some(a@),
                None => self@ is None,
            },
    {
        match &self.album {
            Some(a) => Some(a),
            None => None,
        }
    }

    /// Takes in a share page, and tells which of its photos were not there before.
    /// A page without photos leaves the cache as it is.
    pub fn load(&mut self, html: &str) -> (r: Result<Vec<usize>, AlbumError>)
        ensures
            match r {
                Ok(new) => {
                    &&& photo_urls(html@).len() > 0
                    &&& final(self)@ == Some(first_occurrences(photo_urls(html@)))
                    &&& new@ == new_to(old(self)@, html@)
                },
                Err(e) => {
                    &&& photo_urls(html@).len() == 0
                    &&& e == AlbumError::NoPhotos
                    &&& final(self)@ == old(self)@
                },
            },
    {
        let read = match &self.album {
            Some(a) => Album::read(Some(a), html),
            None => Album::read(None, html),
        };
        match read {
            Ok((album, new)) => {
                self.album = Some(album);
                Ok(new)
            },
            Err(e) => Err(e),
        }
    }
}

// ----- Laws ------------------------------------------------------------------------------------------

/// Leaving out repeats loses nothing, adds nothing and leaves each item once.
pub proof fn law_dedupe_keeps_what_is_there(s: Seq<Seq<char>>)
    ensures
        first_occurrences(s).no_duplicates(),
        forall|item: Seq<char>| #[trigger]
            first_occurrences(s).contains(item) <==> s.contains(item),
    decreases s.len(),
{
    if s.len() > 0 {
        let before = first_occurrences(s.drop_last());
        law_dedupe_keeps_what_is_there(s.drop_last());
        assert(s == s.drop_last().push(s.last()));
        assert forall|item: Seq<char>| #[trigger]
            first_occurrences(s).contains(item) <==> s.contains(item) by {
            if s.contains(item) {
                let k = choose|k: int| 0 <= k < s.len() && s[k] == item;
                if k < s.len() - 1 {
                    assert(s.drop_last()[k] == item);
                    assert(s.drop_last().contains(item));
                    assert(before.contains(item));
                    let j = choose|j: int| 0 <= j < before.len() && before[j] == item;
                    assert(first_occurrences(s)[j] == item);
                } else if !before.contains(item) {
                    assert(first_occurrences(s)[before.len() as int] == item);
                }
            }
            if first_occurrences(s).contains(item) {
                if before.contains(item) {
                    assert(s.drop_last().contains(item));
                    let k = choose|k: int| 0 <= k < s.drop_last().len() && s.drop_last()[k] == item;
                    assert(s[k] == item);
                } else {
                    assert(item == s.last());
                    assert(s[s.len() - 1] == item);
                }
            }
        }
    }
}

/// Whether a text is a photo URL: the prefix with a non-empty id.
pub open spec fn photo_url_shape(url: Seq<char>) -> bool {
    &&& begins_with(url, url_prefix())
    &&& url.len() > url_prefix().len()
    &&& forall|i: int| url_prefix().len() <= i < url.len() ==> id_char(#[trigger] url[i])
}

/// Whether a text stands somewhere on a page.
pub open spec fn stands_on(page: Seq<char>, text: Seq<char>) -> bool {
    exists|i: int|
        0 <= i && i + text.len() <= page.len() && #[trigger] page.subrange(i, i + text.len())
            == text
}

proof fn lemma_stands_further_on(page: Seq<char>, by: int, text: Seq<char>)
    requires
        0 <= by <= page.len(),
        stands_on(page.skip(by), text),
    ensures
        stands_on(page, text),
{
    let rest = page.skip(by);
    let i = choose|i: int|
        0 <= i && i + text.len() <= rest.len() && #[trigger] rest.subrange(i, i + text.len())
            == text;
    assert(page.subrange(by + i, by + i + text.len()) == rest.subrange(i, i + text.len()));
}

/// Every URL found is a photo URL that stands on the page.
pub proof fn law_found_urls_are_on_the_page(page: Seq<char>)
    ensures
        forall|url: Seq<char>| #[trigger]
            photo_urls(page).contains(url) ==> photo_url_shape(url) && stands_on(page, url),
    decreases page.len(),
{
    reveal_strlit("https://lh3.googleusercontent.com/pw/");
    if page.len() > 0 {
        if begins_with(page, url_prefix()) {
            let p = url_prefix().len();
            let tail = page.skip(p as int);
            lemma_id_length(tail);
            let end = p + id_length(tail);
            let url0 = page.take(end as int);
            law_found_urls_are_on_the_page(page.skip(end as int));
            assert forall|url: Seq<char>| #[trigger]
                photo_urls(page).contains(url) implies photo_url_shape(url) && stands_on(
                page,
                url,
            ) by {
                let k = choose|k: int| 0 <= k < photo_urls(page).len() && photo_urls(page)[k] == url;
                if id_length(tail) > 0 && k == 0 {
                    assert(url == url0);
                    assert(url.take(p as int) == page.take(p as int));
                    assert forall|i: int| p <= i < url.len() implies id_char(#[trigger] url[i]) by {
                        assert(url[i] == tail[i - p]);
                    }
                    assert(page.subrange(0int, 0int + url.len()) == url);
                } else {
                    let j = if id_length(tail) > 0 {
                        k - 1
                    } else {
                        k
                    };
                    assert(photo_urls(page.skip(end as int))[j] == url);
                    assert(photo_urls(page.skip(end as int)).contains(url));
                    lemma_stands_further_on(page, end as int, url);
                }
            }
        } else {
            assert(page.drop_first() == page.skip(1));
            law_found_urls_are_on_the_page(page.drop_first());
            assert forall|url: Seq<char>| #[trigger]
                photo_urls(page).contains(url) implies photo_url_shape(url) && stands_on(
                page,
                url,
            ) by {
                assert(photo_urls(page.drop_first()).contains(url));
                lemma_stands_further_on(page, 1, url);
            }
        }
    }
}

/// The new indices are ascending, and are exactly those of the texts that were
/// not there before.
pub proof fn law_new_indices_are_the_unseen(previous: Seq<Seq<char>>, current: Seq<Seq<char>>)
    requires
        current.len() <= usize::MAX,
    ensures
        forall|i: int, j: int|
            0 <= i < j < new_indices(previous, current).len() ==> (#[trigger] new_indices(
                previous,
                current,
            )[i]) < #[trigger] new_indices(previous, current)[j],
        forall|k: usize| #[trigger]
            new_indices(previous, current).contains(k) <==> k < current.len() && !previous.contains(
                current[k as int],
            ),
    decreases current.len(),
{
    if current.len() > 0 {
        let shorter = current.drop_last();
        let before = new_indices(previous, shorter);
        let all = new_indices(previous, current);
        let last = (current.len() - 1) as usize;
        law_new_indices_are_the_unseen(previous, shorter);
        assert forall|i: int| 0 <= i < before.len() implies #[trigger] before[i] < last by {
            assert(before.contains(before[i]));
        }
        assert forall|k: usize| #[trigger] all.contains(k) <==> k < current.len()
            && !previous.contains(current[k as int]) by {
            if all.contains(k) {
                let at = choose|at: int| 0 <= at < all.len() && all[at] == k;
                if at < before.len() {
                    assert(before[at] == k);
                    assert(before.contains(k));
                }
            }
            if k < current.len() && !previous.contains(current[k as int]) {
                if k == last {
                    assert(all[all.len() - 1] == k);
                } else {
                    assert(shorter[k as int] == current[k as int]);
                    assert(before.contains(k));
                    let at = choose|at: int| 0 <= at < before.len() && before[at] == k;
                    assert(all[at] == k);
                }
            }
        }
    }
}

/// Nothing is new in an unchanged album.
pub proof fn law_nothing_new_when_unchanged(album: Seq<Seq<char>>)
    requires
        album.len() <= usize::MAX,
    ensures
        new_indices(album, album).len() == 0,
{
    law_new_indices_are_the_unseen(album, album);
    let new = new_indices(album, album);
    if new.len() > 0 {
        assert(new.contains(new[0]));
        assert(album.contains(album[new[0] as int]));
    }
}

/// Reading a page again finds nothing new on it.
pub proof fn law_same_page_has_no_news(page: Seq<char>)
    requires
        photo_urls(page).len() <= usize::MAX,
    ensures
        new_to(Some(first_occurrences(photo_urls(page))), page).len() == 0,
{
    lemma_dedupe_shrinks(photo_urls(page));
    law_nothing_new_when_unchanged(first_occurrences(photo_urls(page)));
}

proof fn lemma_dedupe_shrinks(s: Seq<Seq<char>>)
    ensures
        first_occurrences(s).len() <= s.len(),
    decreases s.len(),
{
    if s.len() > 0 {
        lemma_dedupe_shrinks(s.drop_last());
    }
}

/// Whether a photo URL begins at a place on a page: the prefix, and at least one
/// character of an id.
pub open spec fn photo_begins(page: Seq<char>, at: int) -> bool {
    &&& 0 <= at
    &&& at + url_prefix().len() < page.len()
    &&& begins_with(page.skip(at), url_prefix())
    &&& id_char(page[at + url_prefix().len()])
}

/// The prefix does not overlap itself.
proof fn lemma_prefix_stands_alone(page: Seq<char>, at: int)
    requires
        begins_with(page, url_prefix()),
        0 < at < url_prefix().len(),
        at <= page.len(),
    ensures
        !begins_with(page.skip(at), url_prefix()),
{
    reveal_strlit("https://lh3.googleusercontent.com/pw/");
    let p = url_prefix();
    if begins_with(page.skip(at), p) {
        assert(page.skip(at).take(p.len() as int)[0] == p[0]);
        assert(page.skip(at).take(p.len() as int)[1] == p[1]);
        assert(page.take(p.len() as int)[at] == p[at]);
        assert(p[at] == 'h');
        assert(at == 9);
        assert(page.take(p.len() as int)[10] == p[10]);
    }
}

proof fn lemma_photo_is_found(page: Seq<char>, at: int)
    requires
        photo_begins(page, at),
    ensures
        photo_urls(page).len() > 0,
    decreases page.len(),
{
    reveal_strlit("https://lh3.googleusercontent.com/pw/");
    let p = url_prefix().len();
    if begins_with(page, url_prefix()) {
        let tail = page.skip(p as int);
        lemma_id_length(tail);
        if id_length(tail) == 0 {
            if at == 0 {
                assert(tail[0] == page[p as int]);
            } else {
                if at < p {
                    lemma_prefix_stands_alone(page, at);
                }
                assert(tail.skip(at - p) == page.skip(at));
                assert(photo_begins(tail, at - p));
                lemma_photo_is_found(tail, at - p);
                assert(page.skip((p + id_length(tail)) as int) == tail);
            }
        }
    } else {
        assert(page.skip(0) == page);
        assert(page.drop_first().skip(at - 1) == page.skip(at));
        assert(photo_begins(page.drop_first(), at - 1));
        lemma_photo_is_found(page.drop_first(), at - 1);
    }
}

/// A page has no photos exactly where no photo URL begins on it.
pub proof fn law_photos_are_found_where_there_are_any(page: Seq<char>)
    ensures
        photo_urls(page).len() > 0 <==> exists|at: int| photo_begins(page, at),
{
    if exists|at: int| photo_begins(page, at) {
        lemma_photo_is_found(page, choose|at: int| photo_begins(page, at));
    }
    if photo_urls(page).len() > 0 {
        let url = photo_urls(page)[0];
        law_found_urls_are_on_the_page(page);
        assert(photo_urls(page).contains(url));
        let p = url_prefix().len() as int;
        let at = choose|i: int|
            0 <= i && i + url.len() <= page.len() && #[trigger] page.subrange(i, i + url.len())
                == url;
        let there = page.subrange(at, at + url.len());
        assert(page.skip(at).take(p) == there.take(p));
        assert(page[at + p] == there[p]);
        assert(photo_begins(page, at));
    }
}

/// Two pages on one, with a space between.
pub open spec fn side_by_side(a: Seq<char>, b: Seq<char>) -> Seq<char> {
    a + seq![' '] + b
}

proof fn lemma_space_ends_id(a: Seq<char>, b: Seq<char>)
    ensures
        id_length(side_by_side(a, b)) == id_length(a),
    decreases a.len(),
{
    let both = side_by_side(a, b);
    if a.len() == 0 {
        assert(both[0] == ' ');
    } else if id_char(a[0]) {
        assert(both.drop_first() == side_by_side(a.drop_first(), b));
        lemma_space_ends_id(a.drop_first(), b);
    }
}

proof fn lemma_space_is_in_no_prefix(a: Seq<char>, b: Seq<char>)
    ensures
        begins_with(side_by_side(a, b), url_prefix()) == begins_with(a, url_prefix()),
{
    reveal_strlit("https://lh3.googleusercontent.com/pw/");
    let p = url_prefix();
    let both = side_by_side(a, b);
    if a.len() >= p.len() {
        assert(both.take(p.len() as int) == a.take(p.len() as int));
    } else if begins_with(both, p) {
        assert(both.take(p.len() as int)[a.len() as int] == ' ');
        assert(p[a.len() as int] != ' ');
    }
}

proof fn lemma_urls_of_two_pages(a: Seq<char>, b: Seq<char>)
    ensures
        photo_urls(side_by_side(a, b)) == photo_urls(a) + photo_urls(b),
    decreases a.len(),
{
    let both = side_by_side(a, b);
    lemma_space_is_in_no_prefix(a, b);
    if a.len() == 0 {
        assert(both.drop_first() == b);
        reveal_strlit("https://lh3.googleusercontent.com/pw/");
        assert(photo_urls(a) == Seq::<Seq<char>>::empty());
    } else if begins_with(a, url_prefix()) {
        reveal_strlit("https://lh3.googleusercontent.com/pw/");
        let p = url_prefix().len();
        let tail = a.skip(p as int);
        assert(both.skip(p as int) == side_by_side(tail, b));
        lemma_space_ends_id(tail, b);
        lemma_id_length(tail);
        let end = (p + id_length(tail)) as int;
        assert(both.take(end) == a.take(end));
        assert(both.skip(end) == side_by_side(a.skip(end), b));
        lemma_urls_of_two_pages(a.skip(end), b);
    } else {
        assert(both.drop_first() == side_by_side(a.drop_first(), b));
        lemma_urls_of_two_pages(a.drop_first(), b);
    }
}

/// The items of `list` that `seen` does not have.
pub open spec fn unseen(list: Seq<Seq<char>>, seen: Seq<Seq<char>>) -> Seq<Seq<char>> {
    list.filter(|item: Seq<char>| !seen.contains(item))
}

proof fn lemma_unseen_step(list: Seq<Seq<char>>, item: Seq<char>, seen: Seq<Seq<char>>)
    ensures
        unseen(list.push(item), seen) == if seen.contains(item) {
            unseen(list, seen)
        } else {
            unseen(list, seen).push(item)
        },
{
    reveal(Seq::filter);
    assert(list.push(item).drop_last() == list);
}

proof fn lemma_unseen_holds(list: Seq<Seq<char>>, seen: Seq<Seq<char>>, item: Seq<char>)
    ensures
        unseen(list, seen).contains(item) <==> list.contains(item) && !seen.contains(item),
    decreases list.len(),
{
    if list.len() == 0 {
        reveal(Seq::filter);
    } else {
        let shorter = list.drop_last();
        assert(list == shorter.push(list.last()));
        lemma_unseen_step(shorter, list.last(), seen);
        lemma_unseen_holds(shorter, seen, item);
        lemma_push_holds(shorter, list.last(), item);
        lemma_push_holds(unseen(shorter, seen), list.last(), item);
    }
}

proof fn lemma_push_holds(list: Seq<Seq<char>>, last: Seq<char>, item: Seq<char>)
    ensures
        list.push(last).contains(item) <==> list.contains(item) || item == last,
{
    let longer = list.push(last);
    if list.contains(item) {
        let k = choose|k: int| 0 <= k < list.len() && list[k] == item;
        assert(longer[k] == item);
    }
    assert(longer[list.len() as int] == last);
    if longer.contains(item) {
        let k = choose|k: int| 0 <= k < longer.len() && longer[k] == item;
        if k < list.len() {
            assert(list[k] == item);
        }
    }
}

proof fn lemma_sum_holds(a: Seq<Seq<char>>, b: Seq<Seq<char>>, item: Seq<char>)
    ensures
        (a + b).contains(item) <==> a.contains(item) || b.contains(item),
{
    let both = a + b;
    if a.contains(item) {
        let k = choose|k: int| 0 <= k < a.len() && a[k] == item;
        assert(both[k] == item);
    }
    if b.contains(item) {
        let k = choose|k: int| 0 <= k < b.len() && b[k] == item;
        assert(both[a.len() + k] == item);
    }
    if both.contains(item) {
        let k = choose|k: int| 0 <= k < both.len() && both[k] == item;
        if k < a.len() {
            assert(a[k] == item);
        } else {
            assert(b[k - a.len()] == item);
        }
    }
}

proof fn lemma_dedupe_of_two_lists(a: Seq<Seq<char>>, b: Seq<Seq<char>>)
    ensures
        first_occurrences(a + b) == first_occurrences(a) + unseen(
            first_occurrences(b),
            first_occurrences(a),
        ),
    decreases b.len(),
{
    let ra = first_occurrences(a);
    if b.len() == 0 {
        assert(a + b == a);
        reveal(Seq::filter);
        assert(ra + unseen(first_occurrences(b), ra) == ra);
    } else {
        let shorter = b.drop_last();
        let last = b.last();
        let rb = first_occurrences(shorter);
        let kept = unseen(rb, ra);
        assert((a + b) == (a + shorter).push(last));
        assert(b == shorter.push(last));
        lemma_dedupe_of_two_lists(a, shorter);
        lemma_first_occurrences_step(a + shorter, last);
        lemma_first_occurrences_step(shorter, last);
        lemma_sum_holds(ra, kept, last);
        lemma_unseen_holds(rb, ra, last);
        lemma_unseen_step(rb, last, ra);
        assert((ra + kept).push(last) == ra + kept.push(last));
    }
}

/// A page made of two pages with a space between gives the photos of the first,
/// then those of the second that the first does not have; each in its order.
pub proof fn law_pages_add_up(a: Seq<char>, b: Seq<char>)
    ensures
        first_occurrences(photo_urls(side_by_side(a, b))) == first_occurrences(photo_urls(a))
            + unseen(first_occurrences(photo_urls(b)), first_occurrences(photo_urls(a))),
{
    lemma_urls_of_two_pages(a, b);
    lemma_dedupe_of_two_lists(photo_urls(a), photo_urls(b));
}

/// A page twice over gives the photos of the page.
pub proof fn law_repeated_page_adds_nothing(page: Seq<char>)
    ensures
        first_occurrences(photo_urls(side_by_side(page, page))) == first_occurrences(
            photo_urls(page),
        ),
{
    let found = first_occurrences(photo_urls(page));
    law_pages_add_up(page, page);
    let rest = unseen(found, found);
    if rest.len() > 0 {
        assert(rest.contains(rest[0]));
        lemma_unseen_holds(found, found, rest[0]);
    }
    assert(found + rest == found);
}

/// URLs on one page, with a space between each two.
pub open spec fn spaced(urls: Seq<Seq<char>>) -> Seq<char>
    decreases urls.len(),
{
    if urls.len() == 0 {
        Seq::empty()
    } else if urls.len() == 1 {
        urls[0]
    } else {
        side_by_side(spaced(urls.drop_last()), urls.last())
    }
}

proof fn lemma_url_is_found(url: Seq<char>)
    requires
        photo_url_shape(url),
    ensures
        photo_urls(url) == seq![url],
{
    reveal_strlit("https://lh3.googleusercontent.com/pw/");
    let p = url_prefix().len();
    let tail = url.skip(p as int);
    lemma_id_length(tail);
    if id_length(tail) < tail.len() {
        assert(tail[id_length(tail) as int] == url[(p + id_length(tail)) as int]);
    }
    assert(url.take(url.len() as int) == url);
    assert(url.skip(url.len() as int).len() == 0);
    assert(photo_urls(url.skip(url.len() as int)) == Seq::<Seq<char>>::empty());
    assert(seq![url] + Seq::<Seq<char>>::empty() == seq![url]);
}

proof fn lemma_spaced_urls_are_found(urls: Seq<Seq<char>>)
    requires
        forall|i: int| 0 <= i < urls.len() ==> photo_url_shape(#[trigger] urls[i]),
    ensures
        photo_urls(spaced(urls)) == urls,
    decreases urls.len(),
{
    if urls.len() == 0 {
        assert(photo_urls(spaced(urls)) == urls);
    } else if urls.len() == 1 {
        lemma_url_is_found(urls[0]);
        assert(urls == seq![urls[0]]);
    } else {
        let shorter = urls.drop_last();
        lemma_spaced_urls_are_found(shorter);
        lemma_url_is_found(urls.last());
        lemma_urls_of_two_pages(spaced(shorter), urls.last());
        assert(shorter + seq![urls.last()] == urls);
    }
}

proof fn lemma_distinct_stays(s: Seq<Seq<char>>)
    requires
        s.no_duplicates(),
    ensures
        first_occurrences(s) == s,
    decreases s.len(),
{
    if s.len() > 0 {
        let shorter = s.drop_last();
        lemma_distinct_stays(shorter);
        if shorter.contains(s.last()) {
            let k = choose|k: int| 0 <= k < shorter.len() && shorter[k] == s.last();
            assert(s[k] == s[s.len() - 1]);
        }
        assert(shorter.push(s.last()) == s);
    }
}

/// The photos found on a page, written out with a space between each two, are
/// found again, in the same order.
pub proof fn law_found_urls_are_found_again(page: Seq<char>)
    ensures
        ({
            let found = first_occurrences(photo_urls(page));
            first_occurrences(photo_urls(spaced(found))) == found
        }),
{
    let found = first_occurrences(photo_urls(page));
    law_dedupe_keeps_what_is_there(photo_urls(page));
    law_found_urls_are_on_the_page(page);
    assert forall|i: int| 0 <= i < found.len() implies photo_url_shape(#[trigger] found[i]) by {
        assert(found.contains(found[i]));
        assert(photo_urls(page).contains(found[i]));
    }
    lemma_spaced_urls_are_found(found);
    lemma_distinct_stays(found);
}

/// An id is made of the letters `a` to `z` in either case, the digits, `_` and `-`.
pub proof fn law_id_characters(c: char)
    ensures
        id_char(c) <==> ('a' <= c <= 'z' || 'A' <= c <= 'Z' || '0' <= c <= '9' || c == '_' || c
            == '-'),
        url_prefix() == "https://lh3.googleusercontent.com/pw/"@,
{
}

proof fn lemma_id_length_cut(s: Seq<char>, k: int)
    requires
        id_length(s) <= k <= s.len(),
    ensures
        id_length(s.take(k)) == id_length(s),
    decreases s.len(),
{
    if s.len() > 0 && id_char(s[0]) {
        lemma_id_length_cut(s.drop_first(), k - 1);
        assert(s.take(k).drop_first() == s.drop_first().take(k - 1));
        assert(s.take(k)[0] == s[0]);
    } else if k > 0 {
        assert(s.take(k)[0] == s[0]);
    }
}

proof fn lemma_id_length_is(s: Seq<char>, k: int)
    requires
        0 <= k <= s.len(),
        forall|i: int| 0 <= i < k ==> id_char(#[trigger] s[i]),
        k < s.len() ==> !id_char(s[k]),
    ensures
        id_length(s) == k,
{
    lemma_id_length(s);
    if id_length(s) < k {
        assert(id_char(s[id_length(s) as int]));
    }
}

/// Whether the prefix and id of a photo URL that begins earlier on the page reach
/// beyond `at`.
pub open spec fn overlapped(page: Seq<char>, at: int) -> bool {
    exists|from: int|
        0 <= from < at && #[trigger] photo_begins(page, from) && from + url_prefix().len()
            + id_length(page.skip(from + url_prefix().len())) > at
}

proof fn lemma_shifted_begin(page: Seq<char>, by: int, at: int)
    requires
        0 <= by <= page.len(),
        0 <= at,
        photo_begins(page.skip(by), at),
    ensures
        photo_begins(page, by + at),
        page.skip(by).skip(at + url_prefix().len()) == page.skip(by + at + url_prefix().len()),
{
    assert(page.skip(by).skip(at) == page.skip(by + at));
    assert(page.skip(by)[at + url_prefix().len()] == page[by + at + url_prefix().len()]);
}

proof fn lemma_not_overlapped_further_on(page: Seq<char>, by: int, at: int)
    requires
        0 <= by <= at <= page.len(),
        !overlapped(page, at),
    ensures
        !overlapped(page.skip(by), at - by),
{
    let p = url_prefix().len() as int;
    if overlapped(page.skip(by), at - by) {
        let from = choose|from: int|
            0 <= from < at - by && #[trigger] photo_begins(page.skip(by), from) && from + p
                + id_length(page.skip(by).skip(from + p)) > at - by;
        lemma_shifted_begin(page, by, from);
        assert(photo_begins(page, by + from));
    }
}

proof fn lemma_page_splits(page: Seq<char>, at: int, end: int)
    requires
        photo_begins(page, at),
        !overlapped(page, at),
        end == at + url_prefix().len() + id_length(page.skip(at + url_prefix().len())),
    ensures
        end <= page.len(),
        photo_urls(page) == photo_urls(page.take(at)) + seq![page.subrange(at, end)] + photo_urls(
            page.skip(end),
        ),
    decreases page.len(),
{
    reveal_strlit("https://lh3.googleusercontent.com/pw/");
    let p = url_prefix().len() as int;
    lemma_id_length(page.skip(at + p));
    if at == 0 {
        assert(page.skip(0) == page);
        assert(page.skip(p)[0] == page[p]);
        assert(page.subrange(0, end) == page.take(end));
        assert(photo_urls(page.take(0)) == Seq::<Seq<char>>::empty());
        assert(photo_urls(page) == photo_urls(page.take(at)) + seq![page.subrange(at, end)]
            + photo_urls(page.skip(end)));
    } else if begins_with(page, url_prefix()) {
        let tail = page.skip(p);
        lemma_id_length(tail);
        let id = id_length(tail) as int;
        let by = p + id;
        if at < p {
            lemma_prefix_stands_alone(page, at);
        }
        if id > 0 {
            assert(page.skip(0) == page);
            assert(tail[0] == page[p]);
            assert(photo_begins(page, 0));
            assert(page.skip(0 + p) == tail);
        }
        assert(by <= at);
        let rest = page.skip(by);
        lemma_not_overlapped_further_on(page, by, at);
        assert(rest.skip(at - by) == page.skip(at));
        assert(rest[at - by + p] == page[at + p]);
        assert(rest.skip(at - by + p) == page.skip(at + p));
        lemma_page_splits(rest, at - by, end - by);
        assert(rest.subrange(at - by, end - by) == page.subrange(at, end));
        assert(rest.skip(end - by) == page.skip(end));
        let head = page.take(at);
        assert(head.take(p) == page.take(p));
        assert(head.skip(p) == tail.take(at - p));
        lemma_id_length_cut(tail, at - p);
        assert(head.skip(by) == rest.take(at - by));
        assert(head.take(by) == page.take(by));
        assert(photo_urls(page) == photo_urls(head) + seq![page.subrange(at, end)] + photo_urls(
            page.skip(end),
        ));
    } else {
        let rest = page.drop_first();
        assert(rest == page.skip(1));
        lemma_not_overlapped_further_on(page, 1, at);
        assert(rest.skip(at - 1) == page.skip(at));
        assert(rest.skip(at - 1 + p) == page.skip(at + p));
        lemma_page_splits(rest, at - 1, end - 1);
        assert(rest.subrange(at - 1, end - 1) == page.subrange(at, end));
        assert(rest.skip(end - 1) == page.skip(end));
        let head = page.take(at);
        assert(head.drop_first() == rest.take(at - 1));
        if begins_with(head, url_prefix()) {
            assert(head.take(p) == page.take(p));
        }
    }
}

/// Wherever on a page the prefix stands with an id behind it, and no earlier URL
/// reaches into it, the prefix with the longest id is found: after the URLs before
/// it and before those behind it, whatever characters stand around it. `end` is
/// where the id ends.
pub proof fn law_every_photo_is_found(page: Seq<char>, at: int, end: int)
    requires
        0 <= at,
        at + "https://lh3.googleusercontent.com/pw/"@.len() < end <= page.len(),
        page.subrange(at, at + "https://lh3.googleusercontent.com/pw/"@.len())
            == "https://lh3.googleusercontent.com/pw/"@,
        forall|i: int|
            at + "https://lh3.googleusercontent.com/pw/"@.len() <= i < end ==> id_char(
                #[trigger] page[i],
            ),
        end < page.len() ==> !id_char(page[end]),
        !overlapped(page, at),
    ensures
        photo_urls(page) == photo_urls(page.take(at)) + seq![page.subrange(at, end)] + photo_urls(
            page.skip(end),
        ),
        photo_urls(page).contains(page.subrange(at, end)),
        first_occurrences(photo_urls(page)).contains(page.subrange(at, end)),
{
    let p = url_prefix().len() as int;
    let url = page.subrange(at, end);
    assert(page.skip(at).take(p) == page.subrange(at, at + p));
    assert forall|i: int| 0 <= i < end - at - p implies id_char(#[trigger] page.skip(at + p)[i]) by {
        assert(page.skip(at + p)[i] == page[at + p + i]);
    }
    lemma_id_length_is(page.skip(at + p), end - at - p);
    assert(id_char(page[at + p]));
    lemma_page_splits(page, at, end);
    let before = photo_urls(page.take(at));
    assert(photo_urls(page)[before.len() as int] == url);
    law_dedupe_keeps_what_is_there(photo_urls(page));
}

/// No earlier URL reaches into one that stands behind a character which is neither
/// in an id nor a slash: a quote, a bracket or a comma will do.
pub proof fn law_url_behind_another_character_stands_free(page: Seq<char>, at: int)
    requires
        0 <= at < page.len(),
        begins_with(page.skip(at), url_prefix()),
        at > 0 ==> !id_char(page[at - 1]) && page[at - 1] != '/',
    ensures
        !overlapped(page, at),
{
    reveal_strlit("https://lh3.googleusercontent.com/pw/");
    let p = url_prefix().len() as int;
    if overlapped(page, at) {
        let from = choose|from: int|
            0 <= from < at && #[trigger] photo_begins(page, from) && from + p + id_length(
                page.skip(from + p),
            ) > at;
        lemma_id_length(page.skip(from + p));
        if at - 1 >= from + p {
            assert(page.skip(from + p)[at - 1 - from - p] == page[at - 1]);
        } else if at < from + p {
            let here = page.skip(from);
            assert(here.skip(at - from) == page.skip(at));
            lemma_prefix_stands_alone(here, at - from);
        } else {
            assert(at == from + p);
            assert(page.skip(from).take(p)[p - 1] == page[at - 1]);
            assert(url_prefix()[p - 1] == '/');
        }
    }
}

/// A page in two parts around a character that is neither in an id nor in the
/// prefix gives the photos of the first part, then those of the second, each in
/// its order; so with quotes, brackets and commas as with spaces.
pub proof fn law_parts_of_a_page_add_up(a: Seq<char>, c: char, b: Seq<char>)
    requires
        !id_char(c),
        !url_prefix().contains(c),
    ensures
        photo_urls(a + seq![c] + b) == photo_urls(a) + photo_urls(b),
        first_occurrences(photo_urls(a + seq![c] + b)) == first_occurrences(photo_urls(a)) + unseen(
            first_occurrences(photo_urls(b)),
            first_occurrences(photo_urls(a)),
        ),
{
    lemma_urls_around(a, c, b);
    lemma_dedupe_of_two_lists(photo_urls(a), photo_urls(b));
}

proof fn lemma_id_ends_at(a: Seq<char>, c: char, b: Seq<char>)
    requires
        !id_char(c),
    ensures
        id_length(a + seq![c] + b) == id_length(a),
    decreases a.len(),
{
    let both = a + seq![c] + b;
    if a.len() == 0 {
        assert(both[0] == c);
    } else if id_char(a[0]) {
        assert(both.drop_first() == a.drop_first() + seq![c] + b);
        lemma_id_ends_at(a.drop_first(), c, b);
    }
}

proof fn lemma_urls_around(a: Seq<char>, c: char, b: Seq<char>)
    requires
        !id_char(c),
        !url_prefix().contains(c),
    ensures
        photo_urls(a + seq![c] + b) == photo_urls(a) + photo_urls(b),
    decreases a.len(),
{
    reveal_strlit("https://lh3.googleusercontent.com/pw/");
    let both = a + seq![c] + b;
    let p = url_prefix().len() as int;
    assert(begins_with(both, url_prefix()) == begins_with(a, url_prefix())) by {
        if a.len() >= p {
            assert(both.take(p) == a.take(p));
        } else if begins_with(both, url_prefix()) {
            assert(both.take(p)[a.len() as int] == c);
            assert(url_prefix()[a.len() as int] == c);
        }
    }
    if a.len() == 0 {
        assert(both.drop_first() == b);
        assert(photo_urls(a) == Seq::<Seq<char>>::empty());
    } else if begins_with(a, url_prefix()) {
        let tail = a.skip(p);
        assert(both.skip(p) == tail + seq![c] + b);
        lemma_id_ends_at(tail, c, b);
        lemma_id_length(tail);
        let end = p + id_length(tail);
        assert(both.take(end) == a.take(end));
        assert(both.skip(end) == a.skip(end) + seq![c] + b);
        lemma_urls_around(a.skip(end), c, b);
    } else {
        assert(both.drop_first() == a.drop_first() + seq![c] + b);
        lemma_urls_around(a.drop_first(), c, b);
    }
}

/// The album keeps the first of each URL: an item found again later changes
/// nothing, and one not found before comes last.
pub proof fn law_repeats_are_dropped(list: Seq<Seq<char>>, item: Seq<char>)
    ensures
        list.contains(item) ==> first_occurrences(list.push(item)) == first_occurrences(list),
        !list.contains(item) ==> first_occurrences(list.push(item)) == first_occurrences(list).push(
            item,
        ),
        first_occurrences(Seq::empty()) == Seq::<Seq<char>>::empty(),
{
    lemma_first_occurrences_step(list, item);
    law_dedupe_keeps_what_is_there(list);
}

/// On the first scrape nothing is new; later, exactly the photos whose URL was not
/// in the album before.
pub proof fn law_news_is_what_was_not_there(
    seen: Option<Seq<Seq<char>>>,
    page: Seq<char>,
    k: usize,
)
    requires
        photo_urls(page).len() <= usize::MAX,
    ensures
        seen is None ==> new_to(seen, page).len() == 0,
        seen matches Some(previous) ==> (new_to(seen, page).contains(k) <==> k < first_occurrences(
            photo_urls(page),
        ).len() && !previous.contains(first_occurrences(photo_urls(page))[k as int])),
{
    lemma_dedupe_shrinks(photo_urls(page));
    if let Some(previous) = seen {
        law_new_indices_are_the_unseen(previous, first_occurrences(photo_urls(page)));
    }
}

/// A photo is asked for in exactly the screen's width and height, with the mark of
/// its fit at the end.
pub proof fn law_size_suffix_names_size_and_fit(width: u32, height: u32, fit: FitMethod)
    ensures
        size_suffix_text(width, height, FitMethod::Contain) == "=w"@ + decimal(width as nat) + "-h"@
            + decimal(height as nat),
        size_suffix_text(width, height, FitMethod::Crop) == size_suffix_text(
            width,
            height,
            FitMethod::Contain,
        ) + "-c"@,
        size_suffix_text(width, height, FitMethod::SmartCrop) == size_suffix_text(
            width,
            height,
            FitMethod::Contain,
        ) + "-p"@,
        size_suffix_text(width, height, FitMethod::Resize) == size_suffix_text(
            width,
            height,
            FitMethod::Contain,
        ) + "-s"@,
{
    reveal_strlit("");
    let plain = "=w"@ + decimal(width as nat) + "-h"@ + decimal(height as nat);
    assert(plain + ""@ == plain);
}

/// A scrape serves for an hour, and never a request for a fresh album.
pub proof fn law_scrape_serves_for_an_hour(age: int, fresh: bool)
    ensures
        cache_serves(Some(age), false) <==> age < 3_600 * 1_000_000_000,
        !cache_serves(Some(age), true),
        !cache_serves(None, fresh),
{
}

} // verus!
