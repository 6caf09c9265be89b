//! Battery indicator overlay, modelled on the Android 16 status bar battery: what
//! is painted, in which colours and in which order.

use crate::config::{BatteryIndicatorConfig, BatteryStyle, BatteryThreshold, ColorConfig};
use crate::text::{decimal, decimal_of, joined};
use vstd::prelude::*;

verus! {

// ----- Colours --------------------------------------------------------------------------------

/// The index of the threshold that gives the colour at `pct`: the lowest `below`
/// that `pct` is under, and the first where several are equal.
pub open spec fn best_threshold(thresholds: Seq<BatteryThreshold>, pct: u8) -> Option<int>
    decreases thresholds.len(),
{
    if thresholds.len() == 0 {
        None
    } else {
        let before = best_threshold(thresholds.drop_last(), pct);
        let better = pct < thresholds.last().below && match before {
            Some(i) => thresholds.last().below < thresholds[i].below,
            None => true,
        };
        if better {
            Some(thresholds.len() - 1)
        } else {
            before
        }
    }
}

/// The colour of the charged portion at `pct`.
pub open spec fn level_color(cfg: BatteryIndicatorConfig, pct: u8) -> ColorConfig {
    match best_threshold(cfg.thresholds@, pct) {
        Some(i) => cfg.thresholds@[i].color,
        None => cfg.foreground,
    }
}

/// Picks the level-fill colour for `pct`: the most restrictive (lowest `below`)
/// matching threshold, or the foreground if none match.
pub fn effective_fg(cfg: &BatteryIndicatorConfig, pct: u8) -> (r: ColorConfig)
    ensures
        r == level_color(*cfg, pct),
{
    let n: usize = cfg.thresholds.len();
    let mut best: Option<usize> = None;
    let mut i: usize = 0;
    assert(cfg.thresholds@.take(0) == Seq::<BatteryThreshold>::empty());
    while i < n
        invariant
            n == cfg.thresholds@.len(),
            i <= n,
            best_threshold(cfg.thresholds@.take(i as int), pct) == match best {
                Some(b) => Some(b as int),
                None => None,
            },
            best matches Some(b) ==> b < i,
        decreases n - i,
    {
        let t: BatteryThreshold = cfg.thresholds[i];
        proof {
            let longer = cfg.thresholds@.take(i + 1);
            assert(longer.drop_last() == cfg.thresholds@.take(i as int));
        }
        let better: bool = pct < t.below && match best {
            Some(b) => t.below < cfg.thresholds[b].below,
            None => true,
        };
        if better {
            best = Some(i);
        }
        i = i + 1;
    }
    assert(cfg.thresholds@.take(n as int) == cfg.thresholds@);
    match best {
        Some(b) => cfg.thresholds[b].color,
        None => cfg.foreground,
    }
}

// ----- What is painted ------------------------------------------------------------------------------

/// One thing that is painted.
#[derive(Debug)]
pub enum Stroke {
    /// The battery's body.
    Body(ColorConfig),
    /// The terminal nub.
    Cap(ColorConfig),
    /// The left part of the body, that many percent wide, with a straight edge.
    Level(u8, ColorConfig),
    /// A line of text beside no icon.
    Line(String, ColorConfig),
    /// Text centred over the body, clipped by it.
    OverBody(String, ColorConfig),
    /// Text centred over the body, clipped by the left part of the body that is
    /// that many percent wide.
    OverLevel(String, u8, ColorConfig),
}

/// A `Stroke` with its text as a sequence of characters.
pub ghost enum StrokeView {
    Body(ColorConfig),
    Cap(ColorConfig),
    Level(u8, ColorConfig),
    Line(Seq<char>, ColorConfig),
    OverBody(Seq<char>, ColorConfig),
    OverLevel(Seq<char>, u8, ColorConfig),
}

impl View for Stroke {
    type V = StrokeView;

    open spec fn view(&self) -> StrokeView {
        match self {
            Stroke::Body(c) => StrokeView::Body(*c),
            Stroke::Cap(c) => StrokeView::Cap(*c),
            Stroke::Level(p, c) => StrokeView::Level(*p, *c),
            Stroke::Line(t, c) => StrokeView::Line(t@, *c),
            Stroke::OverBody(t, c) => StrokeView::OverBody(t@, *c),
            Stroke::OverLevel(t, p, c) => StrokeView::OverLevel(t@, *p, *c),
        }
    }
}

/// A list of strokes as values.
pub open spec fn strokes(list: Seq<Stroke>) -> Seq<StrokeView> {
    list.map_values(|s: Stroke| s@)
}

/// A stroke, where its colour is visible.
pub open spec fn if_visible(color: ColorConfig, stroke: StrokeView) -> Seq<StrokeView> {
    if color.0.a > 0 {
        seq![stroke]
    } else {
        Seq::empty()
    }
}

/// The battery glyph: body in `empty`, nub in `fg` at 100 percent and in `empty`
/// below, and the charged portion in `fg`.
pub open spec fn silhouette(pct: u8, fg: ColorConfig, empty: ColorConfig) -> Seq<StrokeView> {
    let cap = if pct == 100 {
        fg
    } else {
        empty
    };
    if_visible(empty, StrokeView::Body(empty)) + if_visible(cap, StrokeView::Cap(cap)) + if pct > 0 {
        seq![StrokeView::Level(pct, fg)]
    } else {
        Seq::empty()
    }
}

/// The number over the glyph: in `fg` everywhere, then in `empty` over the charged
/// portion.
pub open spec fn inverted_text(pct: u8, fg: ColorConfig, empty: ColorConfig) -> Seq<StrokeView> {
    let text = decimal(pct as nat);
    seq![StrokeView::OverBody(text, fg)] + if pct > 0 {
        seq![StrokeView::OverLevel(text, pct, empty)]
    } else {
        Seq::empty()
    }
}

/// What is painted for a charge of `pct` percent, in order.
pub open spec fn indicator(cfg: BatteryIndicatorConfig, pct: u8) -> Seq<StrokeView> {
    let fg = level_color(cfg, pct);
    match cfg.style {
        BatteryStyle::Icon => silhouette(pct, fg, cfg.empty_color),
        BatteryStyle::Text => seq![StrokeView::Line(decimal(pct as nat) + "%"@, fg)],
        BatteryStyle::Both => silhouette(pct, fg, cfg.empty_color) + inverted_text(
            pct,
            fg,
            cfg.empty_color,
        ),
    }
}

/// A percentage as the device sent it, clamped to 100.
pub open spec fn clamped(pct: u8) -> u8 {
    if pct <= 100 {
        pct
    } else {
        100
    }
}

fn put(list: &mut Vec<Stroke>, stroke: Stroke)
    ensures
        strokes(final(list)@) == strokes(old(list)@).push(stroke@),
{
    let ghost before = strokes(list@);
    list.push(stroke);
    assert(strokes(list@) == before.push(stroke@));
}

/// Body silhouette filled with `empty`, level fill from the left in `fg`, cap in
/// `fg` at 100 % (the "fully charged" Android flourish) or `empty` otherwise.
fn draw_silhouette(list: &mut Vec<Stroke>, pct: u8, fg: ColorConfig, empty: ColorConfig)
    ensures
        strokes(final(list)@) == strokes(old(list)@) + silhouette(pct, fg, empty),
{
    let cap: ColorConfig = if pct == 100 {
        fg
    } else {
        empty
    };
    if empty.0.a > 0 {
        put(list, Stroke::Body(empty));
    }
    if cap.0.a > 0 {
        put(list, Stroke::Cap(cap));
    }
    if pct > 0 {
        put(list, Stroke::Level(pct, fg));
    }
    assert(strokes(list@) == strokes(old(list)@) + silhouette(pct, fg, empty));
}

/// The percentage number centred over the body, painted twice so the digits flip
/// between `fg` (over the empty area) and `empty` (over the level fill) at the
/// boundary.
fn draw_inverted_text(list: &mut Vec<Stroke>, pct: u8, fg: ColorConfig, empty: ColorConfig)
    ensures
        strokes(final(list)@) == strokes(old(list)@) + inverted_text(pct, fg, empty),
{
    put(list, Stroke::OverBody(decimal_of(pct as u64), fg));
    if pct > 0 {
        put(list, Stroke::OverLevel(decimal_of(pct as u64), pct, empty));
    }
    assert(strokes(list@) == strokes(old(list)@) + inverted_text(pct, fg, empty));
}

/// The text that stands in for the glyph.
pub fn percentage_text(pct: u8) -> (r: String)
    ensures
        r@ == decimal(pct as nat) + "%"@,
{
    joined(decimal_of(pct as u64), "%")
}

/// What is painted for a charge of `pct` percent, in order. Whatever the device
/// sends above 100 counts as 100.
pub fn apply(cfg: &BatteryIndicatorConfig, pct: u8) -> (r: Vec<Stroke>)
    ensures
        strokes(r@) == indicator(*cfg, clamped(pct)),
{
    let pct: u8 = if pct <= 100 {
        pct
    } else {
        100
    };
    let fg: ColorConfig = effective_fg(cfg, pct);
    let mut out: Vec<Stroke> = Vec::new();
    assert(strokes(out@) == Seq::<StrokeView>::empty());
    match cfg.style {
        BatteryStyle::Icon => {
            draw_silhouette(&mut out, pct, fg, cfg.empty_color);
        },
        BatteryStyle::Text => {
            put(&mut out, Stroke::Line(percentage_text(pct), fg));
        },
        BatteryStyle::Both => {
            draw_silhouette(&mut out, pct, fg, cfg.empty_color);
            draw_inverted_text(&mut out, pct, fg, cfg.empty_color);
        },
    }
    assert(strokes(out@) == indicator(*cfg, pct));
    out
}

/// What is painted for a request: something only where the screen has a battery
/// indicator and the device reports its charge.
pub fn overlay(cfg: &Option<BatteryIndicatorConfig>, pct: Option<u8>) -> (r: Option<Vec<Stroke>>)
    ensures
        match r {
            Some(list) => cfg is Some && pct is Some && strokes(list@) == indicator(
                cfg->0,
                clamped(pct->0),
            ),
            None => cfg is None || pct is None,
        },
{
    match (cfg, pct) {
        (Some(cfg), Some(pct)) => Some(apply(cfg, pct)),
        _ => None,
    }
}

// ----- Masks --------------------------------------------------------------------------------------

/// What is left of one coverage under another.
pub open spec fn covered(a: u8, b: u8) -> u8 {
    (a * b / 255) as u8
}

/// Two masks laid over each other: where the second ends, the first stays.
pub open spec fn intersected(a: Seq<u8>, b: Seq<u8>) -> Seq<u8> {
    Seq::new(
        a.len(),
        |i: int|
            if i < b.len() {
                covered(a[i], b[i])
            } else {
                a[i]
            },
    )
}

/// Limits a mask to another.
pub fn intersect_mask(dst: &mut Vec<u8>, other: &[u8])
    ensures
        final(dst)@ == intersected(old(dst)@, other@),
{
    let n: usize = if dst.len() <= other.len() {
        dst.len()
    } else {
        other.len()
    };
    let ghost before = dst@;
    let mut i: usize = 0;
    while i < n
        invariant
            n <= other@.len(),
            n <= before.len(),
            n == before.len() || n == other@.len(),
            dst@.len() == before.len(),
            i <= n,
            forall|k: int| 0 <= k < i ==> dst@[k] == covered(before[k], other@[k]),
            forall|k: int| i <= k < before.len() ==> dst@[k] == before[k],
        decreases n - i,
    {
        let d: u16 = dst[i] as u16;
        let o: u16 = other[i] as u16;
        proof {
            lemma_covered(dst@[i as int], other@[i as int]);
        }
        let c: u8 = (d * o / 255) as u8;
        dst.set(i, c);
        i = i + 1;
    }
    assert(dst@ == intersected(before, other@));
}

proof fn lemma_covered(a: u8, b: u8)
    ensures
        0 <= a * b <= 255 * 255,
        a * b / 255 <= a,
        a * b / 255 <= b,
        b == 255 ==> a * b / 255 == a,
        b == 0 ==> a * b / 255 == 0,
{
    assert(0 <= a * b <= 255 * 255) by (nonlinear_arith)
        requires
            0 <= a <= 255,
            0 <= b <= 255,
    ;
    assert(a * b <= 255 * a && a * b <= 255 * b) by (nonlinear_arith)
        requires
            0 <= a <= 255,
            0 <= b <= 255,
    ;
    if b == 255 {
        assert(a * b == 255 * a) by (nonlinear_arith)
            requires
                b == 255,
        ;
    }
    if b == 0 {
        assert(a * b == 0) by (nonlinear_arith)
            requires
                b == 0,
        ;
    }
}

// ----- Laws ------------------------------------------------------------------------------------------

/// Whether the threshold number `i` applies and no other asks for less.
pub open spec fn most_restrictive(thresholds: Seq<BatteryThreshold>, pct: u8, i: int) -> bool {
    &&& 0 <= i < thresholds.len()
    &&& pct < thresholds[i].below
    &&& forall|j: int|
        0 <= j < thresholds.len() && pct < (#[trigger] thresholds[j]).below ==> thresholds[i].below
            <= thresholds[j].below
}

/// The most restrictive match wins: the lowest `below` that the charge is under,
/// whatever the order of the list; the foreground where it is under none.
pub proof fn law_most_restrictive_threshold_wins(cfg: BatteryIndicatorConfig, pct: u8)
    ensures
        match best_threshold(cfg.thresholds@, pct) {
            Some(i) => most_restrictive(cfg.thresholds@, pct, i) && level_color(cfg, pct)
                == cfg.thresholds@[i].color,
            None => level_color(cfg, pct) == cfg.foreground && forall|j: int|
                0 <= j < cfg.thresholds@.len() ==> pct >= (#[trigger] cfg.thresholds@[j]).below,
        },
{
    lemma_best(cfg.thresholds@, pct);
}

proof fn lemma_best(thresholds: Seq<BatteryThreshold>, pct: u8)
    ensures
        match best_threshold(thresholds, pct) {
            Some(i) => most_restrictive(thresholds, pct, i),
            None => forall|j: int|
                0 <= j < thresholds.len() ==> pct >= (#[trigger] thresholds[j]).below,
        },
    decreases thresholds.len(),
{
    if thresholds.len() > 0 {
        let shorter = thresholds.drop_last();
        lemma_best(shorter, pct);
        assert forall|j: int| 0 <= j < shorter.len() implies shorter[j] == #[trigger] thresholds[j] by {}
    }
}

/// A mask limited to another covers no more than either; the full mask changes
/// nothing and the empty one leaves nothing.
pub proof fn law_intersection_shrinks(a: u8, b: u8)
    ensures
        covered(a, b) <= a,
        covered(a, b) <= b,
        covered(a, 255) == a,
        covered(a, 0) == 0,
{
    lemma_covered(a, b);
    lemma_covered(a, 255);
    lemma_covered(a, 0);
}

/// Whether `c` is the colour for a charge of `pct` percent: that of a threshold with
/// the lowest `below` that the charge is under, the first of those listed, or the
/// foreground where the charge is under none.
pub open spec fn color_for(cfg: BatteryIndicatorConfig, pct: u8, c: ColorConfig) -> bool {
    let ts = cfg.thresholds@;
    if exists|j: int| 0 <= j < ts.len() && pct < (#[trigger] ts[j]).below {
        exists|i: int|
            {
                &&& 0 <= i < ts.len()
                &&& pct < (#[trigger] ts[i]).below
                &&& c == ts[i].color
                &&& forall|j: int|
                    0 <= j < ts.len() && pct < (#[trigger] ts[j]).below ==> ts[i].below
                        <= ts[j].below
                &&& forall|j: int|
                    0 <= j < i && pct < (#[trigger] ts[j]).below ==> ts[i].below < ts[j].below
            }
    } else {
        c == cfg.foreground
    }
}

proof fn lemma_best_is_first(thresholds: Seq<BatteryThreshold>, pct: u8)
    ensures
        best_threshold(thresholds, pct) matches Some(i) ==> 0 <= i < thresholds.len() && forall|
            j: int,
        |
            0 <= j < i && pct < (#[trigger] thresholds[j]).below ==> thresholds[i].below
                < thresholds[j].below,
    decreases thresholds.len(),
{
    if thresholds.len() > 0 {
        let shorter = thresholds.drop_last();
        lemma_best_is_first(shorter, pct);
        lemma_best(shorter, pct);
        assert forall|j: int| 0 <= j < shorter.len() implies shorter[j] == #[trigger] thresholds[j] by {}
    }
}

proof fn lemma_level_color(cfg: BatteryIndicatorConfig, pct: u8)
    ensures
        color_for(cfg, pct, level_color(cfg, pct)),
{
    let ts = cfg.thresholds@;
    lemma_best(ts, pct);
    lemma_best_is_first(ts, pct);
    if let Some(i) = best_threshold(ts, pct) {
        assert(pct < ts[i].below);
    }
}

/// What is painted for a charge: every level fill is as wide as the charge, every
/// text gives the charge in numbers, and both have the colour of the thresholds;
/// the body, the nub below a full charge and the number over the charged portion
/// have the colour for the empty portion. Above 100 percent counts as 100.
pub proof fn law_every_stroke_shows_the_charge(cfg: BatteryIndicatorConfig, pct: u8, i: int)
    requires
        0 <= i < indicator(cfg, clamped(pct)).len(),
    ensures
        ({
            let p: u8 = if pct > 100 {
                100
            } else {
                pct
            };
            match indicator(cfg, clamped(pct))[i] {
                StrokeView::Level(q, c) => q == p && color_for(cfg, p, c),
                StrokeView::Line(t, c) => t == decimal(p as nat) + "%"@ && color_for(cfg, p, c),
                StrokeView::OverBody(t, c) => t == decimal(p as nat) && color_for(cfg, p, c),
                StrokeView::OverLevel(t, q, c) => t == decimal(p as nat) && q == p && c
                    == cfg.empty_color,
                StrokeView::Body(c) => c == cfg.empty_color,
                StrokeView::Cap(c) => if p == 100 {
                    color_for(cfg, p, c)
                } else {
                    c == cfg.empty_color
                },
            }
        }),
{
    lemma_level_color(cfg, clamped(pct));
}

/// Which strokes there are, and in which order: the text style has its line alone;
/// the others have the body and the nub where these are visible, then the level
/// where there is charge, and with the number inside that comes last, over the body
/// and then over the level.
pub proof fn law_strokes_come_in_order(cfg: BatteryIndicatorConfig, pct: u8)
    ensures
        ({
            let list = indicator(cfg, clamped(pct));
            let shown = cfg.empty_color.0.a > 0;
            let cap = if pct >= 100 {
                level_color(cfg, 100).0.a > 0
            } else {
                shown
            };
            let body_at = 0int;
            let cap_at = if shown {
                1int
            } else {
                0
            };
            let level_at = cap_at + if cap {
                1int
            } else {
                0
            };
            let text_at = level_at + if pct > 0 {
                1int
            } else {
                0
            };
            match cfg.style {
                BatteryStyle::Text => list.len() == 1 && list[0] is Line,
                _ => {
                    &&& shown ==> list[body_at] is Body
                    &&& cap ==> list[cap_at] is Cap
                    &&& pct > 0 ==> list[level_at] is Level
                    &&& cfg.style == BatteryStyle::Icon ==> list.len() == text_at
                    &&& cfg.style == BatteryStyle::Both ==> list[text_at] is OverBody
                    &&& cfg.style == BatteryStyle::Both && pct > 0 ==> list.len() == text_at + 2
                        && list[text_at + 1] is OverLevel
                    &&& cfg.style == BatteryStyle::Both && pct == 0 ==> list.len() == text_at + 1
                },
            }
        }),
{
}

/// Masks are limited point by point: each coverage becomes the product of the two,
/// as parts of 255, rounded down, and beyond the other mask nothing changes.
pub proof fn law_masks_multiply(a: Seq<u8>, b: Seq<u8>, i: int)
    requires
        0 <= i < a.len(),
    ensures
        intersected(a, b).len() == a.len(),
        i < b.len() ==> 255 * intersected(a, b)[i] <= a[i] * b[i] < 255 * intersected(a, b)[i]
            + 255,
        i >= b.len() ==> intersected(a, b)[i] == a[i],
{
    if i < b.len() {
        lemma_covered(a[i], b[i]);
        vstd::arithmetic::div_mod::lemma_fundamental_div_mod(a[i] * b[i], 255);
    }
}

} // verus!
