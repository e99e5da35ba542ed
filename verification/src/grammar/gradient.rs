//! Gradient and rainbow coloring of a closed span of pieces, in exact integer arithmetic.
use vstd::prelude::*;
use crate::chars::chars_of;
use crate::grammar::copy::copy_opt_string;
use crate::grammar::inspect::piece_style;
use crate::grammar::ir::{ColorIr, Piece, PieceV, Style, StyleV};

verus! {

/// An open `<gradient>` or `<rainbow>`: where it sits on the tag stack, where its pieces
/// start, and its color stops (none for a rainbow).
pub struct GradMark {
    pub stack_idx: usize,
    pub piece_start: usize,
    pub stops: Vec<(u8, u8, u8)>,
}

/// `x / y` rounded to the nearest integer, halves away from zero (for `x >= 0`, `y > 0`).
pub open spec fn round_div(x: int, y: int) -> int {
    (2 * x + y) / (2 * y)
}

/// The color of position `i` of `total` on the hue circle: six sectors, each ramping
/// one channel up or down.
pub open spec fn rainbow_spec(i: int, total: int) -> (u8, u8, u8) {
    let sector = (6 * i) / total;
    let rem = 6 * i - sector * total;
    let rise = round_div(255 * rem, total) as u8;
    let fall = round_div(255 * (total - rem), total) as u8;
    if sector == 0 {
        (255, rise, 0)
    } else if sector == 1 {
        (fall, 255, 0)
    } else if sector == 2 {
        (0, 255, rise)
    } else if sector == 3 {
        (0, fall, 255)
    } else if sector == 4 {
        (rise, 0, 255)
    } else {
        (255, 0, fall)
    }
}

/// One channel `num/den` of the way from `a` to `b`, rounded.
pub open spec fn mix_channel(a: u8, b: u8, num: int, den: int) -> u8 {
    round_div(a * den + (b - a) * num, den) as u8
}

/// The color of position `i` of `total` along the stops: the positions spread evenly
/// from the first stop to the last, each between its two neighbouring stops.
pub open spec fn gradient_spec(stops: Seq<(u8, u8, u8)>, i: int, total: int) -> (u8, u8, u8) {
    if total == 1 || stops.len() == 1 {
        stops[0]
    } else {
        let n = stops.len() as int;
        let den = total - 1;
        let q = (i * (n - 1)) / den;
        let lo = if q < n - 2 { q } else { n - 2 };
        let num = i * (n - 1) - lo * den;
        (
            mix_channel(stops[lo].0, stops[lo + 1].0, num, den),
            mix_channel(stops[lo].1, stops[lo + 1].1, num, den),
            mix_channel(stops[lo].2, stops[lo + 1].2, num, den),
        )
    }
}

/// Rounding an exact quotient gives it back.
proof fn lemma_round_div_exact(a: int, d: int)
    requires
        d > 0,
    ensures
        round_div(a * d, d) == a,
{
    assert(2 * (a * d) + d == a * (2 * d) + d) by (nonlinear_arith);
    vstd::arithmetic::div_mod::lemma_fundamental_div_mod_converse_div(2 * (a * d) + d, 2 * d, a, d);
}

/// A gradient starts on its first stop, and, over more than one char, ends on its last.
pub proof fn lemma_gradient_endpoints(stops: Seq<(u8, u8, u8)>, total: int)
    requires
        stops.len() >= 1,
        total >= 1,
    ensures
        gradient_spec(stops, 0, total) == stops[0],
        total >= 2 ==> gradient_spec(stops, total - 1, total) == stops.last(),
{
    if total > 1 && stops.len() > 1 {
        let n = stops.len() as int;
        let den = total - 1;
        assert(0 * (n - 1) == 0);
        assert((0 * (n - 1)) / den == 0);
        assert(0 * den == 0);
        assert(0 * (n - 1) - 0 * den == 0);
        let a = stops[0];
        assert(a.0 * den + (stops[1].0 - a.0) * 0 == a.0 * den) by (nonlinear_arith);
        assert(a.1 * den + (stops[1].1 - a.1) * 0 == a.1 * den) by (nonlinear_arith);
        assert(a.2 * den + (stops[1].2 - a.2) * 0 == a.2 * den) by (nonlinear_arith);
        lemma_round_div_exact(a.0 as int, den);
        lemma_round_div_exact(a.1 as int, den);
        lemma_round_div_exact(a.2 as int, den);
        assert(gradient_spec(stops, 0, total) == (
            mix_channel(a.0, stops[1].0, 0, den),
            mix_channel(a.1, stops[1].1, 0, den),
            mix_channel(a.2, stops[1].2, 0, den),
        ));
        let i = total - 1;
        assert(i * (n - 1) == (n - 1) * den) by (nonlinear_arith)
            requires
                i == den;
        vstd::arithmetic::div_mod::lemma_fundamental_div_mod_converse_div(i * (n - 1), den, n - 1, 0);
        let lo = n - 2;
        assert(i * (n - 1) - lo * den == den) by (nonlinear_arith)
            requires
                i == den,
                lo == n - 2;
        let x = stops[lo];
        let y = stops[lo + 1];
        assert(x.0 * den + (y.0 - x.0) * den == y.0 * den) by (nonlinear_arith);
        assert(x.1 * den + (y.1 - x.1) * den == y.1 * den) by (nonlinear_arith);
        assert(x.2 * den + (y.2 - x.2) * den == y.2 * den) by (nonlinear_arith);
        lemma_round_div_exact(y.0 as int, den);
        lemma_round_div_exact(y.1 as int, den);
        lemma_round_div_exact(y.2 as int, den);
    }
}

/// The pure hue at the start of each sixth of the hue circle: red, yellow, green, cyan,
/// blue, magenta.
pub open spec fn hue_corner(k: int) -> (u8, u8, u8) {
    if k == 0 {
        (255, 0, 0)
    } else if k == 1 {
        (255, 255, 0)
    } else if k == 2 {
        (0, 255, 0)
    } else if k == 3 {
        (0, 255, 255)
    } else if k == 4 {
        (0, 0, 255)
    } else {
        (255, 0, 255)
    }
}

proof fn lemma_round_div_mono(x: int, y: int, d: int)
    requires
        0 <= x <= y,
        d > 0,
    ensures
        0 <= round_div(x, d) <= round_div(y, d),
{
    vstd::arithmetic::div_mod::lemma_div_is_ordered(2 * x + d, 2 * y + d, 2 * d);
    vstd::arithmetic::div_mod::lemma_div_is_ordered(0, 2 * x + d, 2 * d);
}

/// A ramp value `rem/total` of the way, in 0..=255.
proof fn lemma_ramp(rem: int, total: int)
    requires
        0 <= rem <= total,
        total > 0,
    ensures
        0 <= round_div(255 * rem, total) <= 255,
{
    assert(255 * rem <= 255 * total) by (nonlinear_arith)
        requires
            rem <= total;
    assert(0 <= 255 * rem) by (nonlinear_arith)
        requires
            0 <= rem;
    lemma_round_div_mono(255 * rem, 255 * total, total);
    lemma_round_div_exact(255, total);
}

/// The rainbow runs around the hue circle with no jump: where a sixth of the span begins
/// (`6 * i == k * total`), the char there takes the pure hue that sixth starts from.
pub proof fn lemma_rainbow_corners(i: int, total: int, k: int)
    requires
        total > 0,
        0 <= k < 6,
        6 * i == k * total,
    ensures
        rainbow_spec(i, total) == hue_corner(k),
{
    vstd::arithmetic::div_mod::lemma_div_by_multiple(k, total);
    assert(6 * i - k * total == 0);
    assert(255 * 0 == 0);
    lemma_round_div_exact(0, total);
    lemma_round_div_exact(255, total);
    assert(255 * (total - 0) == 255 * total);
}

/// Within one sixth of the span, the channel that moves moves one way as the position
/// grows: green up in the first sixth, red down in the second, blue up in the third, green
/// down in the fourth, red up in the fifth, blue down in the last; the two others stay at
/// 0 or 255.
pub proof fn lemma_rainbow_ramps(i: int, j: int, total: int)
    requires
        0 <= i <= j < total,
        (6 * i) / total == (6 * j) / total,
    ensures
        ({
            let s = (6 * i) / total;
            let a = rainbow_spec(i, total);
            let b = rainbow_spec(j, total);
            &&& s == 0 ==> a.0 == 255 && a.2 == 0 && b.0 == 255 && b.2 == 0 && a.1 <= b.1
            &&& s == 1 ==> a.1 == 255 && a.2 == 0 && b.1 == 255 && b.2 == 0 && a.0 >= b.0
            &&& s == 2 ==> a.0 == 0 && a.1 == 255 && b.0 == 0 && b.1 == 255 && a.2 <= b.2
            &&& s == 3 ==> a.0 == 0 && a.2 == 255 && b.0 == 0 && b.2 == 255 && a.1 >= b.1
            &&& s == 4 ==> a.1 == 0 && a.2 == 255 && b.1 == 0 && b.2 == 255 && a.0 <= b.0
            &&& s == 5 ==> a.0 == 255 && a.1 == 0 && b.0 == 255 && b.1 == 0 && a.2 >= b.2
        }),
{
    let s = (6 * i) / total;
    vstd::arithmetic::div_mod::lemma_fundamental_div_mod(6 * i, total);
    vstd::arithmetic::div_mod::lemma_fundamental_div_mod(6 * j, total);
    vstd::arithmetic::div_mod::lemma_mod_bound(6 * i, total);
    vstd::arithmetic::div_mod::lemma_mod_bound(6 * j, total);
    let ri = 6 * i - s * total;
    let rj = 6 * j - s * total;
    assert(total * s == s * total) by (nonlinear_arith);
    assert(0 <= ri < total);
    assert(0 <= rj < total);
    assert(ri <= rj);
    lemma_ramp(ri, total);
    lemma_ramp(rj, total);
    lemma_ramp(total - ri, total);
    lemma_ramp(total - rj, total);
    assert(255 * ri <= 255 * rj) by (nonlinear_arith)
        requires
            ri <= rj;
    assert(0 <= 255 * ri) by (nonlinear_arith)
        requires
            0 <= ri;
    assert(255 * (total - rj) <= 255 * (total - ri)) by (nonlinear_arith)
        requires
            ri <= rj;
    assert(0 <= 255 * (total - rj)) by (nonlinear_arith)
        requires
            rj <= total;
    lemma_round_div_mono(255 * ri, 255 * rj, total);
    lemma_round_div_mono(255 * (total - rj), 255 * (total - ri), total);
}

/// `c` is `x / d` rounded to the nearest integer, halves up.
pub open spec fn nearest(c: int, x: int, d: int) -> bool {
    2 * (c * d) <= 2 * x + d && 2 * x + d < 2 * (c * d) + 2 * d
}

proof fn lemma_round_div_nearest(x: int, d: int)
    requires
        d > 0,
    ensures
        nearest(round_div(x, d), x, d),
{
    let q = round_div(x, d);
    vstd::arithmetic::div_mod::lemma_fundamental_div_mod(2 * x + d, 2 * d);
    vstd::arithmetic::div_mod::lemma_mod_bound(2 * x + d, 2 * d);
    assert(2 * d * q == 2 * (q * d)) by (nonlinear_arith);
}

/// The channel that moves within a sixth of the rainbow is the nearest byte to how far
/// along that sixth the char stands: `255 * rem / total` rising, or `255 * (total - rem) /
/// total` falling, where `rem / total` is the char's place within its sixth.
pub proof fn lemma_rainbow_rounding(i: int, total: int)
    requires
        0 <= i < total,
    ensures
        ({
            let s = (6 * i) / total;
            let rem = 6 * i - s * total;
            let c = rainbow_spec(i, total);
            let m = if s == 0 || s == 3 { c.1 } else if s == 1 || s == 4 { c.0 } else { c.2 };
            let x = if s == 0 || s == 2 || s == 4 { rem } else { total - rem };
            nearest(m as int, 255 * x, total)
        }),
{
    let s = (6 * i) / total;
    vstd::arithmetic::div_mod::lemma_fundamental_div_mod(6 * i, total);
    vstd::arithmetic::div_mod::lemma_mod_bound(6 * i, total);
    let rem = 6 * i - s * total;
    assert(total * s == s * total) by (nonlinear_arith);
    assert(0 <= rem < total);
    lemma_ramp(rem, total);
    lemma_ramp(total - rem, total);
    lemma_round_div_nearest(255 * rem, total);
    lemma_round_div_nearest(255 * (total - rem), total);
}

/// The color a mark gives position `i` of `total`.
pub open spec fn color_at_spec(stops: Seq<(u8, u8, u8)>, i: int, total: int) -> ColorIr {
    let c = if stops.len() == 0 { rainbow_spec(i, total) } else { gradient_spec(stops, i, total) };
    ColorIr::Rgb(c.0, c.1, c.2)
}

fn round_div_exec(x: u128, y: u128) -> (r: u128)
    requires
        0 < y <= 0x1_0000_0000_0000_0000,
        x <= 0x200 * 0x1_0000_0000_0000_0000,
    ensures
        r == round_div(x as int, y as int),
{
    (2 * x + y) / (2 * y)
}

fn mix_exec(a: u8, b: u8, num: u128, den: u128) -> (r: u8)
    requires
        0 < den <= 0x1_0000_0000_0000_0000,
        num <= den,
    ensures
        r == mix_channel(a, b, num as int, den as int),
{
    let x: u128 = if b >= a {
        assert((b - a) * num <= 255 * den) by (nonlinear_arith)
            requires
                0 <= b - a <= 255,
                num <= den,
        ;
        assert(a as int * den <= 255 * den) by (nonlinear_arith)
            requires
                a <= 255,
        ;
        (a as u128) * den + ((b - a) as u128) * num
    } else {
        assert((a - b) * num <= a * den) by (nonlinear_arith)
            requires
                0 < a - b <= a,
                num <= den,
        ;
        assert(a as int * den <= 255 * den) by (nonlinear_arith)
            requires
                a <= 255,
        ;
        (a as u128) * den - ((a - b) as u128) * num
    };
    assert(x == a * den + (b - a) * num) by (nonlinear_arith)
        requires
            b >= a ==> x == a * den + (b - a) * num,
            b < a ==> x == a * den - (a - b) * num,
    ;
    round_div_exec(x, den) as u8
}

impl GradMark {
    /// The color of position `i` of `total`.
    pub fn color_at(&self, i: u64, total: u64) -> (r: ColorIr)
        requires
            i < total,
            self.stops@.len() < 0x1_0000_0000_0000_0000,
        ensures
            r == color_at_spec(self.stops@, i as int, total as int),
    {
        let n = self.stops.len();
        if n == 0 {
            let i = i as u128;
            let total = total as u128;
            let sector = (6 * i) / total;
            assert(sector * total <= 6 * i) by (nonlinear_arith)
                requires
                    sector as int == (6 * i as int) / (total as int),
                    total > 0,
            ;
            assert(6 * i - sector * total < total) by (nonlinear_arith)
                requires
                    sector as int == (6 * i as int) / (total as int),
                    total > 0,
            ;
            let rem = 6 * i - sector * total;
            let rise = round_div_exec(255 * rem, total) as u8;
            let fall = round_div_exec(255 * (total - rem), total) as u8;
            let c = if sector == 0 {
                (255u8, rise, 0u8)
            } else if sector == 1 {
                (fall, 255u8, 0u8)
            } else if sector == 2 {
                (0u8, 255u8, rise)
            } else if sector == 3 {
                (0u8, fall, 255u8)
            } else if sector == 4 {
                (rise, 0u8, 255u8)
            } else {
                (255u8, 0u8, fall)
            };
            return ColorIr::Rgb(c.0, c.1, c.2);
        }
        if total == 1 || n == 1 {
            let (r, g, b) = self.stops[0];
            return ColorIr::Rgb(r, g, b);
        }
        let nn = n as u128;
        let den = (total - 1) as u128;
        let ii = i as u128;
        assert(ii * (nn - 1) < 0x1_0000_0000_0000_0000 * 0x1_0000_0000_0000_0000) by (nonlinear_arith)
            requires
                ii < 0x1_0000_0000_0000_0000,
                nn - 1 < 0x1_0000_0000_0000_0000,
        ;
        let p = ii * (nn - 1);
        let q = p / den;
        assert(q * den <= p) by (nonlinear_arith)
            requires
                q == p / den,
                den > 0,
        ;
        assert(p - q * den < den) by (nonlinear_arith)
            requires
                q == p / den,
                den > 0,
        ;
        let lo: u128 = if q < nn - 2 { q } else { nn - 2 };
        assert(lo * den <= q * den) by (nonlinear_arith)
            requires
                lo <= q,
                den > 0,
        ;
        assert(p - lo * den <= den) by (nonlinear_arith)
            requires
                p == ii * (nn - 1),
                ii <= den,
                lo == q || lo == nn - 2,
                lo == nn - 2 ==> nn - 2 <= q,
                q * den <= p,
                p - q * den < den,
        ;
        let num = p - lo * den;
        let lo = lo as usize;
        let (r0, g0, b0) = self.stops[lo];
        let (r1, g1, b1) = self.stops[lo + 1];
        ColorIr::Rgb(
            mix_exec(r0, r1, num, den),
            mix_exec(g0, g1, num, den),
            mix_exec(b0, b1, num, den),
        )
    }
}

/// A piece's style with its color set.
pub open spec fn recolored(s: StyleV, c: ColorIr) -> StyleV {
    StyleV { color: Some(c), ..s }
}

/// A piece with its color set.
pub open spec fn recolor(p: PieceV, c: ColorIr) -> PieceV {
    match p {
        PieceV::Text { text, style, range } => PieceV::Text { text, style: recolored(style, c), range },
        PieceV::Keybind { key, style, range } => PieceV::Keybind { key, style: recolored(style, c), range },
        PieceV::Lang { key, fallback, args, style, range } => PieceV::Lang { key, fallback, args, style: recolored(style, c), range },
        PieceV::Score { name, objective, style, range } => PieceV::Score { name, objective, style: recolored(style, c), range },
        PieceV::Selector { selector, separator, style, range } => PieceV::Selector { selector, separator, style: recolored(style, c), range },
        PieceV::Nbt { source, path, interpret, separator, style, range } => PieceV::Nbt {
            source, path, interpret, separator, style: recolored(style, c), range,
        },
        PieceV::Sprite { atlas, sprite, style, range } => PieceV::Sprite { atlas, sprite, style: recolored(style, c), range },
        PieceV::Head { player, hat, style, range } => PieceV::Head { player, hat, style: recolored(style, c), range },
        PieceV::Hole { arg, kind, spec, style, range } => PieceV::Hole { arg, kind, spec, style: recolored(style, c), range },
    }
}

/// Uncolored text, which a gradient splits into one piece per char.
pub open spec fn splits(p: Piece) -> bool {
    p matches Piece::Text { style, .. } && style.color is None
}

/// How many pieces a piece becomes in a gradient span.
pub open spec fn block_len(p: Piece) -> nat {
    if splits(p) { piece_width(p) } else { 1 }
}

/// How many pieces a gradient span becomes.
pub open spec fn out_len(s: Seq<Piece>) -> nat
    decreases s.len(),
{
    if s.len() == 0 { 0 } else { out_len(s.drop_last()) + block_len(s.last()) }
}

/// The first `n` chars of uncolored text, one piece each, colored from position `pos` on,
/// each keeping the text's style otherwise and its range.
pub open spec fn chars_done(p: Piece, stops: Seq<(u8, u8, u8)>, pos: int, total: int, b: Seq<Piece>, n: int) -> bool {
    &&& b.len() == n
    &&& forall|c: int| 0 <= c < n ==> char_piece(#[trigger] b[c], p, color_at_spec(stops, pos + c, total), c)
}

/// Char `c` of uncolored text as its own piece of color `color`.
pub open spec fn char_piece(q: Piece, p: Piece, color: ColorIr, c: int) -> bool {
    q@ matches PieceV::Text { text, style, range } && text@ == seq![p@->Text_text@[c]]
        && style == recolored(p@.style(), color) && range == p@.range()
}

/// What a piece at position `pos` becomes: uncolored text splits into colored chars, an
/// uncolored other piece takes the color of its position, a colored piece stays.
pub open spec fn block_ok(p: Piece, stops: Seq<(u8, u8, u8)>, pos: int, total: int, b: Seq<Piece>) -> bool {
    if splits(p) {
        chars_done(p, stops, pos, total, b, piece_width(p) as int)
    } else {
        &&& b.len() == 1
        &&& b[0]@ == if piece_style(p).color is None { recolor(p@, color_at_spec(stops, pos, total)) } else { p@ }
    }
}

/// A gradient span and what it becomes, piece by piece.
pub open spec fn gradient_rel(span: Seq<Piece>, stops: Seq<(u8, u8, u8)>, total: int, out: Seq<Piece>) -> bool
    decreases span.len(),
{
    &&& out.len() == out_len(span)
    &&& span.len() > 0 ==> {
        &&& gradient_rel(span.drop_last(), stops, total, out.subrange(0, out_len(span.drop_last()) as int))
        &&& block_ok(span.last(), stops, widths(span.drop_last()) as int, total,
            out.subrange(out_len(span.drop_last()) as int, out.len() as int))
    }
}

/// How many gradient positions a piece occupies: one per char of text, else one.
pub open spec fn piece_width(p: Piece) -> nat {
    match p {
        Piece::Text { text, .. } => text@.len(),
        _ => 1,
    }
}

/// The positions a run of pieces occupies.
pub open spec fn widths(s: Seq<Piece>) -> nat
    decreases s.len(),
{
    if s.len() == 0 { 0 } else { widths(s.drop_last()) + piece_width(s.last()) }
}

proof fn lemma_widths_prefix(s: Seq<Piece>, k: int)
    requires
        0 <= k <= s.len(),
    ensures
        widths(s.subrange(0, k)) <= widths(s),
    decreases s.len() - k,
{
    if k < s.len() {
        lemma_widths_prefix(s, k + 1);
        assert(s.subrange(0, k + 1).drop_last() =~= s.subrange(0, k));
    } else {
        assert(s.subrange(0, k) =~= s);
    }
}

impl Piece {
    /// How many gradient positions this piece occupies.
    pub fn width(&self) -> (r: usize)
        ensures
            r == piece_width(*self),
    {
        match self {
            Piece::Text { text, .. } => chars_of(text.as_str()).len(),
            _ => 1,
        }
    }

    /// This piece with its style's color set.
    pub fn with_color(self, color: ColorIr) -> (r: Piece)
        ensures
            piece_style(r) == (Style { color: Some(color), ..piece_style(self) }),
            r@ == recolor(self@, color),
    {
        match self {
            Piece::Text { text, style, range } => Piece::Text { text, style: Style { color: Some(color), ..style }, range },
            Piece::Keybind { key, style, range } => Piece::Keybind { key, style: Style { color: Some(color), ..style }, range },
            Piece::Lang { key, fallback, args, style, range } => Piece::Lang {
                key,
                fallback,
                args,
                style: Style { color: Some(color), ..style },
                range,
            },
            Piece::Score { name, objective, style, range } => Piece::Score {
                name,
                objective,
                style: Style { color: Some(color), ..style },
                range,
            },
            Piece::Selector { selector, separator, style, range } => Piece::Selector {
                selector,
                separator,
                style: Style { color: Some(color), ..style },
                range,
            },
            Piece::Nbt { source, path, interpret, separator, style, range } => Piece::Nbt {
                source,
                path,
                interpret,
                separator,
                style: Style { color: Some(color), ..style },
                range,
            },
            Piece::Sprite { atlas, sprite, style, range } => Piece::Sprite {
                atlas,
                sprite,
                style: Style { color: Some(color), ..style },
                range,
            },
            Piece::Head { player, hat, style, range } => Piece::Head {
                player,
                hat,
                style: Style { color: Some(color), ..style },
                range,
            },
            Piece::Hole { arg, kind, spec, style, range } => Piece::Hole {
                arg,
                kind,
                spec,
                style: Style { color: Some(color), ..style },
                range,
            },
        }
    }
}

/// Colors a closed gradient span: uncolored text splits into one piece per char, other
/// pieces take one position; pieces that already have a color keep it.
pub fn apply_gradient(pieces: &mut Vec<Piece>, mark: &GradMark)
    requires
        mark.piece_start <= old(pieces)@.len(),
        mark.stops@.len() < 0x1_0000_0000_0000_0000,
    ensures
        final(pieces)@.len() >= mark.piece_start,
        forall|k: int| 0 <= k < mark.piece_start ==> #[trigger] final(pieces)@[k] == old(pieces)@[k],
        ({
            let span = old(pieces)@.subrange(mark.piece_start as int, old(pieces)@.len() as int);
            &&& (widths(span) == 0 || widths(span) > 0xFFFF_FFFF_FFFF_FFFF) ==> final(pieces)@ == old(pieces)@
            &&& (0 < widths(span) <= 0xFFFF_FFFF_FFFF_FFFF) ==> gradient_rel(span, mark.stops@, widths(span) as int,
                final(pieces)@.subrange(mark.piece_start as int, final(pieces)@.len() as int))
        }),
{
    let start = mark.piece_start;
    let ghost span_v = pieces@.subrange(start as int, pieces@.len() as int);
    let n0 = pieces.len();
    let mut total: u128 = 0;
    let mut k: usize = start;
    while k < pieces.len()
        invariant
            start <= k <= pieces@.len(),
            span_v == pieces@.subrange(start as int, pieces@.len() as int),
            total == widths(span_v.subrange(0, k - start)),
            total <= (k - start) * 0xFFFF_FFFF_FFFF_FFFF,
            pieces@.len() <= usize::MAX,
            usize::MAX <= 0xFFFF_FFFF_FFFF_FFFF,
        decreases pieces@.len() - k,
    {
        let w = pieces[k].width();
        assert(span_v.subrange(0, k - start + 1).drop_last() =~= span_v.subrange(0, k - start));
        assert(span_v[k - start] == pieces@[k as int]);
        total = total + w as u128;
        k = k + 1;
    }
    assert(span_v.subrange(0, span_v.len() as int) =~= span_v);
    if total == 0 || total > 0xFFFF_FFFF_FFFF_FFFF {
        return;
    }
    let total = total as u64;
    let span = pieces.split_off(start);
    assert(span@ == span_v);
    assert(pieces@.subrange(start as int, pieces@.len() as int) =~= Seq::<Piece>::empty());
    assert(span_v.subrange(0, 0) =~= Seq::<Piece>::empty());
    let mut pos: u64 = 0;
    let mut j: usize = 0;
    while j < span.len()
        invariant
            j <= span@.len(),
            span@ == span_v,
            total == widths(span_v),
            pos == widths(span_v.subrange(0, j as int)),
            pieces@.len() >= start,
            forall|m: int| 0 <= m < start ==> #[trigger] pieces@[m] == old(pieces)@[m],
            mark.stops@.len() < 0x1_0000_0000_0000_0000,
            gradient_rel(span_v.subrange(0, j as int), mark.stops@, total as int, pieces@.subrange(start as int, pieces@.len() as int)),
        decreases span@.len() - j,
    {
        proof {
            lemma_widths_prefix(span_v, j + 1);
            assert(span_v.subrange(0, j + 1).drop_last() =~= span_v.subrange(0, j as int));
            assert(span_v.subrange(0, j + 1).last() == span_v[j as int]);
        }
        let ghost before = pieces@;
        let ghost done = pieces@.subrange(start as int, pieces@.len() as int);
        let ghost p = span_v[j as int];
        match &span[j] {
            Piece::Text { text, style, range } if style.color.is_none() => {
                let cs = chars_of(text.as_str());
                let mut c: usize = 0;
                assert(pieces@.subrange(before.len() as int, pieces@.len() as int) =~= Seq::<Piece>::empty());
                while c < cs.len()
                    invariant
                        c <= cs@.len(),
                        cs@ == text@,
                        p == span[j as int],
                        p == (Piece::Text { text: *text, style: *style, range: *range }),
                        style.color is None,
                        pos == widths(span_v.subrange(0, j as int)) + c,
                        widths(span_v.subrange(0, j as int)) + cs@.len() == widths(span_v.subrange(0, j + 1)),
                        widths(span_v.subrange(0, j + 1)) <= total,
                        pieces@.len() == before.len() + c,
                        before.len() >= start,
                        forall|m: int| 0 <= m < before.len() ==> #[trigger] pieces@[m] == before[m],
                        chars_done(p, mark.stops@, widths(span_v.subrange(0, j as int)) as int, total as int,
                            pieces@.subrange(before.len() as int, pieces@.len() as int), c as int),
                        mark.stops@.len() < 0x1_0000_0000_0000_0000,
                    decreases cs@.len() - c,
                {
                    let color = mark.color_at(pos, total);
                    let mut s = String::new();
                    s.push(cs[c]);
                    let st = Style { color: Some(color), ..style.copy() };
                    let ghost old_ps = pieces@;
                    pieces.push(Piece::Text { text: s, style: st, range: *range });
                    proof {
                        let b = pieces@.subrange(before.len() as int, pieces@.len() as int);
                        let ob = old_ps.subrange(before.len() as int, old_ps.len() as int);
                        assert forall|k: int| 0 <= k < c + 1 implies char_piece(#[trigger] b[k], p,
                            color_at_spec(mark.stops@, widths(span_v.subrange(0, j as int)) + k, total as int), k) by {
                            if k < c {
                                assert(b[k] == ob[k]);
                            } else {
                                assert(b[k] == pieces@[pieces@.len() - 1]);
                                assert(s@ =~= seq![text@[k]]);
                            }
                        }
                    }
                    pos = pos + 1;
                    c = c + 1;
                }
            },
            other => {
                let q = other.copy();
                let q = if other.style().color.is_none() {
                    let color = mark.color_at(pos, total);
                    q.with_color(color)
                } else {
                    q
                };
                let w = other.width();
                pieces.push(q);
                pos = pos + w as u64;
            },
        }
        proof {
            let out = pieces@.subrange(start as int, pieces@.len() as int);
            let sj = span_v.subrange(0, j + 1);
            assert(out.subrange(0, out_len(sj.drop_last()) as int) =~= done);
            assert(out.subrange(out_len(sj.drop_last()) as int, out.len() as int)
                =~= pieces@.subrange(before.len() as int, pieces@.len() as int));
        }
        j = j + 1;
    }
    assert(span_v.subrange(0, span_v.len() as int) =~= span_v);
}

} // verus!
