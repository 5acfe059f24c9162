//! The feature store's text form: the decoder.
//!
//! The decoder reads the schema the encoder writes, with any amount of
//! whitespace between tokens, so both the compact and the pretty-printed
//! form decode. Entries are inserted in file order, a later duplicate name
//! replacing an earlier one, so a decoded store is always sorted. A document
//! outside the schema decodes to nothing.

use vstd::prelude::*;

use crate::codec::is_ws;
use crate::codec::lit_basedir;
use crate::codec::lit_bottom;
use crate::codec::lit_features;
use crate::codec::lit_left;
use crate::codec::lit_right;
use crate::codec::lit_top;
use crate::features::insert_entry;
use crate::features::EntryV;
use crate::features::FeaturesV;
use crate::features::entries_view;
use crate::features::Features;
use crate::landmarks::faces_view;
use crate::landmarks::lemma_face_view;
use crate::landmarks::Face;
use crate::landmarks::Faces;
use crate::landmarks::FaceV;
use crate::landmarks::Landmarks;
use crate::landmarks::Rect;
use crate::text::chars_eq;
use crate::text::chars_to_string;
use crate::text::str_to_chars;

verus! {

broadcast use {vstd::utf8::char_u32_cast, vstd::utf8::char_is_scalar};

/// Drops leading whitespace.
pub open spec fn skip_ws(s: Seq<char>) -> Seq<char>
    decreases s.len(),
{
    if s.len() > 0 && is_ws(s[0]) {
        skip_ws(s.drop_first())
    } else {
        s
    }
}

/// Reads one expected punctuation character, whitespace before it allowed.
pub open spec fn tok(s: Seq<char>, c: char) -> Option<Seq<char>> {
    let t = skip_ws(s);
    if t.len() > 0 && t[0] == c {
        Some(t.drop_first())
    } else {
        None
    }
}

/// A decimal digit character.
pub open spec fn is_digit(c: char) -> bool {
    0x30 <= (c as u32) <= 0x39
}

/// The value of a decimal digit character.
pub open spec fn digit_val(c: char) -> int {
    (c as u32) - 0x30
}

/// How many decimal digits the input starts with.
pub open spec fn digit_count(s: Seq<char>) -> nat
    decreases s.len(),
{
    if s.len() > 0 && is_digit(s[0]) {
        (1 + digit_count(s.drop_first())) as nat
    } else {
        0
    }
}

/// The value of a digit string, most significant digit first.
pub open spec fn digits_val(s: Seq<char>) -> int
    decreases s.len(),
{
    if s.len() == 0 {
        0
    } else {
        digits_val(s.drop_last()) * 10 + digit_val(s.last())
    }
}

/// Reads the leading digits as a natural number; there must be at least one
/// digit, and a leading zero is only the number zero itself.
pub open spec fn parse_nat(s: Seq<char>) -> Option<(int, Seq<char>)> {
    let k = digit_count(s);
    if k == 0 {
        None
    } else if s[0] == '0' && k > 1 {
        None
    } else {
        Some((digits_val(s.take(k as int)), s.skip(k as int)))
    }
}

/// Reads a decimal integer that fits the store's coordinate type,
/// whitespace before it allowed.
pub open spec fn parse_int(s: Seq<char>) -> Option<(i64, Seq<char>)> {
    let t = skip_ws(s);
    if t.len() > 0 && t[0] == '-' {
        match parse_nat(t.drop_first()) {
            Some((n, rest)) => if n <= 0x8000_0000_0000_0000 {
                Some(((-n) as i64, rest))
            } else {
                None
            },
            None => None,
        }
    } else {
        match parse_nat(t) {
            Some((n, rest)) => if n <= 0x7fff_ffff_ffff_ffff {
                Some((n as i64, rest))
            } else {
                None
            },
            None => None,
        }
    }
}

/// The value of a hexadecimal digit character, or a negative answer.
pub open spec fn hex_val(c: char) -> int {
    if is_digit(c) {
        digit_val(c)
    } else if c == 'a' || c == 'A' {
        10
    } else if c == 'b' || c == 'B' {
        11
    } else if c == 'c' || c == 'C' {
        12
    } else if c == 'd' || c == 'D' {
        13
    } else if c == 'e' || c == 'E' {
        14
    } else if c == 'f' || c == 'F' {
        15
    } else {
        -1
    }
}

/// The character a short escape stands for.
pub open spec fn esc_short(c: char) -> Option<char> {
    if c == '"' {
        Some('"')
    } else if c == '\\' {
        Some('\\')
    } else if c == '/' {
        Some('/')
    } else if c == 'n' {
        Some('\n')
    } else if c == 't' {
        Some('\t')
    } else if c == 'r' {
        Some('\r')
    } else if c == 'b' {
        Some('\u{8}')
    } else if c == 'f' {
        Some('\u{c}')
    } else {
        None
    }
}

/// Reads the characters of a string value up to its closing quote.
///
/// Quote and backslash must be escaped; a four-digit escape is accepted for
/// the control characters, which may never stand verbatim.
pub open spec fn parse_str_body(s: Seq<char>) -> Option<(Seq<char>, Seq<char>)>
    decreases s.len(),
{
    if s.len() == 0 {
        None
    } else if s[0] == '"' {
        Some((Seq::empty(), s.drop_first()))
    } else if s[0] == '\\' {
        if s.len() < 2 {
            None
        } else if s[1] == 'u' {
            if s.len() < 6 {
                None
            } else {
                let h = hex_val(s[2]) * 4096 + hex_val(s[3]) * 256 + hex_val(s[4]) * 16 + hex_val(
                    s[5],
                );
                if hex_val(s[2]) >= 0 && hex_val(s[3]) >= 0 && hex_val(s[4]) >= 0 && hex_val(s[5])
                    >= 0 && h < 0x20 {
                    match parse_str_body(s.skip(6)) {
                        Some((body, rest)) => Some((seq![h as char] + body, rest)),
                        None => None,
                    }
                } else {
                    None
                }
            }
        } else {
            match esc_short(s[1]) {
                Some(c) => match parse_str_body(s.skip(2)) {
                    Some((body, rest)) => Some((seq![c] + body, rest)),
                    None => None,
                },
                None => None,
            }
        }
    } else if (s[0] as u32) < 0x20 {
        None
    } else {
        match parse_str_body(s.drop_first()) {
            Some((body, rest)) => Some((seq![s[0]] + body, rest)),
            None => None,
        }
    }
}

/// Reads a quoted string value, whitespace before it allowed.
pub open spec fn parse_string(s: Seq<char>) -> Option<(Seq<char>, Seq<char>)> {
    match tok(s, '"') {
        Some(t) => parse_str_body(t),
        None => None,
    }
}

/// Reads a string value that must be the given key.
pub open spec fn parse_key(s: Seq<char>, lit: Seq<char>) -> Option<Seq<char>> {
    match parse_string(s) {
        Some((k, rest)) => if k == lit {
            Some(rest)
        } else {
            None
        },
        None => None,
    }
}

/// Reads one bounding-box field: its key, a colon, and its value.
pub open spec fn parse_rect_field(s: Seq<char>, lit: Seq<char>) -> Option<(i64, Seq<char>)> {
    match parse_key(s, lit) {
        Some(t) => match tok(t, ':') {
            Some(t2) => parse_int(t2),
            None => None,
        },
        None => None,
    }
}

/// Reads a bounding box: the four edge fields in their fixed order.
#[verifier::opaque]
pub open spec fn parse_rect(s: Seq<char>) -> Option<(Rect, Seq<char>)> {
    match tok(s, '{') {
        None => None,
        Some(t0) => match parse_rect_field(t0, lit_left()) {
            None => None,
            Some((l, t1)) => match tok(t1, ',') {
                None => None,
                Some(t2) => match parse_rect_field(t2, lit_top()) {
                    None => None,
                    Some((tp, t3)) => match tok(t3, ',') {
                        None => None,
                        Some(t4) => match parse_rect_field(t4, lit_right()) {
                            None => None,
                            Some((r, t5)) => match tok(t5, ',') {
                                None => None,
                                Some(t6) => match parse_rect_field(t6, lit_bottom()) {
                                    None => None,
                                    Some((b, t7)) => match tok(t7, '}') {
                                        None => None,
                                        Some(rest) => Some(
                                            (Rect { left: l, top: tp, right: r, bottom: b }, rest),
                                        ),
                                    },
                                },
                            },
                        },
                    },
                },
            },
        },
    }
}

/// Reads one landmark point: a two-element list.
pub open spec fn parse_point(s: Seq<char>) -> Option<((i64, i64), Seq<char>)> {
    match tok(s, '[') {
        None => None,
        Some(t0) => match parse_int(t0) {
            None => None,
            Some((x, t1)) => match tok(t1, ',') {
                None => None,
                Some(t2) => match parse_int(t2) {
                    None => None,
                    Some((y, t3)) => match tok(t3, ']') {
                        None => None,
                        Some(rest) => Some(((x, y), rest)),
                    },
                },
            },
        },
    }
}

/// Reads the points after the first: either the closing bracket, or a comma
/// and one more point each time.
pub open spec fn parse_points_rest(s: Seq<char>) -> Option<(Seq<(i64, i64)>, Seq<char>)>
    decreases s.len(),
{
    match tok(s, ']') {
        Some(rest) => Some((Seq::empty(), rest)),
        None => match tok(s, ',') {
            None => None,
            Some(t) => match parse_point(t) {
                None => None,
                Some((p, r)) => if r.len() < s.len() {
                    match parse_points_rest(r) {
                        None => None,
                        Some((ps, rest)) => Some((seq![p] + ps, rest)),
                    }
                } else {
                    None
                },
            },
        },
    }
}

/// Reads a landmark point list.
pub open spec fn parse_points(s: Seq<char>) -> Option<(Seq<(i64, i64)>, Seq<char>)> {
    match tok(s, '[') {
        None => None,
        Some(t) => match tok(t, ']') {
            Some(rest) => Some((Seq::empty(), rest)),
            None => match parse_point(t) {
                None => None,
                Some((p, r)) => match parse_points_rest(r) {
                    None => None,
                    Some((ps, rest)) => Some((seq![p] + ps, rest)),
                },
            },
        },
    }
}

/// Reads one face: the pair of its bounding box and its point list.
#[verifier::opaque]
pub open spec fn parse_face(s: Seq<char>) -> Option<(FaceV, Seq<char>)> {
    match tok(s, '[') {
        None => None,
        Some(t0) => match parse_rect(t0) {
            None => None,
            Some((r, t1)) => match tok(t1, ',') {
                None => None,
                Some(t2) => match parse_points(t2) {
                    None => None,
                    Some((ps, t3)) => match tok(t3, ']') {
                        None => None,
                        Some(rest) => Some((FaceV { rect: r, points: ps }, rest)),
                    },
                },
            },
        },
    }
}

/// Reads the faces after the first.
pub open spec fn parse_faces_rest(s: Seq<char>) -> Option<(Seq<FaceV>, Seq<char>)>
    decreases s.len(),
{
    match tok(s, ']') {
        Some(rest) => Some((Seq::empty(), rest)),
        None => match tok(s, ',') {
            None => None,
            Some(t) => match parse_face(t) {
                None => None,
                Some((f, r)) => if r.len() < s.len() {
                    match parse_faces_rest(r) {
                        None => None,
                        Some((fs, rest)) => Some((seq![f] + fs, rest)),
                    }
                } else {
                    None
                },
            },
        },
    }
}

/// Reads a face list.
pub open spec fn parse_faces(s: Seq<char>) -> Option<(Seq<FaceV>, Seq<char>)> {
    match tok(s, '[') {
        None => None,
        Some(t) => match tok(t, ']') {
            Some(rest) => Some((Seq::empty(), rest)),
            None => match parse_face(t) {
                None => None,
                Some((f, r)) => match parse_faces_rest(r) {
                    None => None,
                    Some((fs, rest)) => Some((seq![f] + fs, rest)),
                },
            },
        },
    }
}

/// Reads one mapping entry: an image name, a colon, and its face list.
pub open spec fn parse_entry(s: Seq<char>) -> Option<(EntryV, Seq<char>)> {
    match parse_string(s) {
        None => None,
        Some((k, t0)) => match tok(t0, ':') {
            None => None,
            Some(t1) => match parse_faces(t1) {
                None => None,
                Some((fs, rest)) => Some(((k, fs), rest)),
            },
        },
    }
}

/// Reads the entries after the first.
pub open spec fn parse_entries_rest(s: Seq<char>) -> Option<(Seq<EntryV>, Seq<char>)>
    decreases s.len(),
{
    match tok(s, '}') {
        Some(rest) => Some((Seq::empty(), rest)),
        None => match tok(s, ',') {
            None => None,
            Some(t) => match parse_entry(t) {
                None => None,
                Some((e, r)) => if r.len() < s.len() {
                    match parse_entries_rest(r) {
                        None => None,
                        Some((es, rest)) => Some((seq![e] + es, rest)),
                    }
                } else {
                    None
                },
            },
        },
    }
}

/// Reads the name-to-faces mapping, in file order.
pub open spec fn parse_entries(s: Seq<char>) -> Option<(Seq<EntryV>, Seq<char>)> {
    match tok(s, '{') {
        None => None,
        Some(t) => match tok(t, '}') {
            Some(rest) => Some((Seq::empty(), rest)),
            None => match parse_entry(t) {
                None => None,
                Some((e, r)) => match parse_entries_rest(r) {
                    None => None,
                    Some((es, rest)) => Some((seq![e] + es, rest)),
                },
            },
        },
    }
}

/// Reads a whole document: the base directory, then the mapping.
#[verifier::opaque]
pub open spec fn parse_features(s: Seq<char>) -> Option<((Seq<char>, Seq<EntryV>), Seq<char>)> {
    match tok(s, '{') {
        None => None,
        Some(t0) => match parse_key(t0, lit_basedir()) {
            None => None,
            Some(t1) => match tok(t1, ':') {
                None => None,
                Some(t2) => match parse_string(t2) {
                    None => None,
                    Some((basedir, t3)) => match tok(t3, ',') {
                        None => None,
                        Some(t4) => match parse_key(t4, lit_features()) {
                            None => None,
                            Some(t5) => match tok(t5, ':') {
                                None => None,
                                Some(t6) => match parse_entries(t6) {
                                    None => None,
                                    Some((es, t7)) => match tok(t7, '}') {
                                        None => None,
                                        Some(rest) => Some(((basedir, es), rest)),
                                    },
                                },
                            },
                        },
                    },
                },
            },
        },
    }
}

/// Folds the entries into a store in file order: a later duplicate name
/// replaces an earlier one.
pub open spec fn insert_all(entries: Seq<EntryV>) -> Seq<EntryV>
    decreases entries.len(),
{
    if entries.len() == 0 {
        Seq::empty()
    } else {
        insert_entry(insert_all(entries.drop_last()), entries.last().0, entries.last().1)
    }
}

/// The store a document denotes: the whole document must parse, with only
/// whitespace after it.
pub open spec fn spec_decode(s: Seq<char>) -> Option<FeaturesV> {
    match parse_features(s) {
        Some(((basedir, entries), rest)) => if skip_ws(rest).len() == 0 {
            Some(FeaturesV { basedir, entries: insert_all(entries) })
        } else {
            None
        },
        None => None,
    }
}

/// Decides whether a character is whitespace.
fn is_ws_ex(c: char) -> (r: bool)
    ensures
        r == is_ws(c),
{
    c == ' ' || c == '\n' || c == '\t' || c == '\r'
}

/// Decides whether a character is a decimal digit.
fn is_digit_ex(c: char) -> (r: bool)
    ensures
        r == is_digit(c),
{
    let u = c as u32;
    0x30 <= u && u <= 0x39
}

/// The first position at or after `i` that holds no whitespace.
fn ws_end(v: &Vec<char>, i: usize) -> (j: usize)
    requires
        i <= v@.len(),
    ensures
        i <= j <= v@.len(),
        skip_ws(v@.skip(i as int)) == v@.skip(j as int),
    decreases v@.len() - i,
{
    if i < v.len() {
        let c = v[i];
        if is_ws_ex(c) {
            proof {
                assert(v@.skip(i as int).drop_first() =~= v@.skip(i + 1));
            }
            return ws_end(v, i + 1);
        }
    }
    proof {
        lemma_skip_ws_stops(v@.skip(i as int));
    }
    i
}

/// `skip_ws` stops at a position that holds no whitespace or lies at the
/// end.
proof fn lemma_skip_ws_stops(s: Seq<char>)
    requires
        s.len() == 0 || !is_ws(s[0]),
    ensures
        skip_ws(s) == s,
{
}

/// Reads one expected punctuation character.
fn tok_ex(v: &Vec<char>, i: usize, c: char) -> (r: Option<usize>)
    requires
        i <= v@.len(),
    ensures
        match r {
            Some(j) => i < j <= v@.len() && tok(v@.skip(i as int), c) == Some(v@.skip(j as int)),
            None => tok(v@.skip(i as int), c) is None,
        },
{
    let j = ws_end(v, i);
    if j < v.len() && v[j] == c {
        proof {
            assert(v@.skip(j as int).drop_first() =~= v@.skip(j + 1));
        }
        Some(j + 1)
    } else {
        None
    }
}

/// All positions from `j` to `e` hold digits, and position `e` does not:
/// then the input starting at `j` starts with exactly `e - j` digits.
pub proof fn lemma_digit_count_range(s: Seq<char>, e: int)
    requires
        0 <= e <= s.len(),
        forall|m: int| 0 <= m < e ==> is_digit(#[trigger] s[m]),
        e == s.len() || !is_digit(s[e]),
    ensures
        digit_count(s) == e,
    decreases e,
{
    if e == 0 {
    } else {
        lemma_digit_count_range(s.drop_first(), e - 1);
    }
}

/// Reads a decimal integer.
#[verifier::rlimit(50)]
fn parse_int_ex(v: &Vec<char>, i: usize) -> (r: Option<(i64, usize)>)
    requires
        i <= v@.len(),
    ensures
        match r {
            Some((x, j)) => i <= j <= v@.len() && parse_int(v@.skip(i as int)) == Some(
                (x, v@.skip(j as int)),
            ),
            None => parse_int(v@.skip(i as int)) is None,
        },
{
    let j0 = ws_end(v, i);
    let neg = j0 < v.len() && v[j0] == '-';
    let p0 = if neg {
        proof {
            assert(v@.skip(j0 as int).drop_first() =~= v@.skip(j0 + 1));
        }
        j0 + 1
    } else {
        j0
    };
    let ghost u = v@.skip(p0 as int);
    if p0 == v.len() || !is_digit_ex(v[p0]) {
        return None;
    }
    if v[p0] == '0' {
        if p0 + 1 < v.len() && is_digit_ex(v[p0 + 1]) {
            proof {
                assert(digit_count(v@.skip(p0 + 1)) >= 1);
                assert(u.drop_first() =~= v@.skip(p0 + 1));
                assert(digit_count(u) == 1 + digit_count(u.drop_first()));
            }
            return None;
        }
        proof {
            assert(digit_count(v@.skip(p0 + 1)) == 0);
            assert(u.drop_first() =~= v@.skip(p0 + 1));
            assert(digit_count(u) == 1 + digit_count(u.drop_first()));
            assert(digit_count(u) == 1);
            assert(digits_val(Seq::<char>::empty()) == 0);
            assert(u.take(1).drop_last() =~= Seq::<char>::empty());
            assert(u.take(1).last() == u[0]);
            assert(digits_val(u.take(1)) == digit_val(u[0]));
            assert(u.skip(1) =~= v@.skip(p0 + 1));
        }
        return Some((0, p0 + 1));
    }
    let mut j: usize = p0;
    let mut acc: u64 = 0;
    let mut big = false;
    proof {
        assert(v@.subrange(p0 as int, p0 as int) =~= Seq::<char>::empty());
    }
    loop
        invariant_except_break
            p0 <= j <= v@.len(),
            forall|m: int| p0 <= m < j ==> is_digit(#[trigger] v@[m]),
            !big ==> acc == digits_val(v@.subrange(p0 as int, j as int)) && acc
                <= 0x8000_0000_0000_0000u64,
            big ==> digits_val(v@.subrange(p0 as int, j as int)) > 0x8000_0000_0000_0000,
            digits_val(v@.subrange(p0 as int, j as int)) >= 0,
        ensures
            p0 <= j <= v@.len(),
            forall|m: int| p0 <= m < j ==> is_digit(#[trigger] v@[m]),
            j == v@.len() || !is_digit(v@[j as int]),
            !big ==> acc == digits_val(v@.subrange(p0 as int, j as int)) && acc
                <= 0x8000_0000_0000_0000u64,
            big ==> digits_val(v@.subrange(p0 as int, j as int)) > 0x8000_0000_0000_0000,
        decreases v@.len() - j,
    {
        if j == v.len() {
            break ;
        }
        let c = v[j];
        if !is_digit_ex(c) {
            break ;
        }
        let d: u64 = (c as u32 - 0x30) as u64;
        proof {
            assert(v@.subrange(p0 as int, j + 1).drop_last() =~= v@.subrange(p0 as int, j as int));
            assert(v@.subrange(p0 as int, j + 1).last() == v@[j as int]);
            assert(digits_val(v@.subrange(p0 as int, j + 1)) == digits_val(
                v@.subrange(p0 as int, j as int),
            ) * 10 + d);
        }
        if !big {
            let nx: u128 = acc as u128 * 10 + d as u128;
            if nx > 0x8000_0000_0000_0000u128 {
                big = true;
            } else {
                acc = nx as u64;
            }
        }
        j = j + 1;
    }
    proof {
        lemma_digit_count_range(u, j - p0);
        assert(u.take(j - p0) =~= v@.subrange(p0 as int, j as int));
        assert(u.skip(j - p0) =~= v@.skip(j as int));
        assert(u[0] == v@[p0 as int]);
    }
    if neg {
        if big {
            return None;
        }
        let x: i64 = if acc == 0x8000_0000_0000_0000u64 {
            i64::MIN
        } else {
            (-(acc as i128)) as i64
        };
        Some((x, j))
    } else {
        if big || acc > 0x7fff_ffff_ffff_ffffu64 {
            return None;
        }
        Some((acc as i64, j))
    }
}

/// The control character with the given scalar value.
fn control_char(u: u32) -> (r: char)
    requires
        u < 0x20,
    ensures
        r as u32 == u,
{
    if u == 0 {
        '\u{0}'
    } else if u == 1 {
        '\u{1}'
    } else if u == 2 {
        '\u{2}'
    } else if u == 3 {
        '\u{3}'
    } else if u == 4 {
        '\u{4}'
    } else if u == 5 {
        '\u{5}'
    } else if u == 6 {
        '\u{6}'
    } else if u == 7 {
        '\u{7}'
    } else if u == 8 {
        '\u{8}'
    } else if u == 9 {
        '\u{9}'
    } else if u == 10 {
        '\u{a}'
    } else if u == 11 {
        '\u{b}'
    } else if u == 12 {
        '\u{c}'
    } else if u == 13 {
        '\u{d}'
    } else if u == 14 {
        '\u{e}'
    } else if u == 15 {
        '\u{f}'
    } else if u == 16 {
        '\u{10}'
    } else if u == 17 {
        '\u{11}'
    } else if u == 18 {
        '\u{12}'
    } else if u == 19 {
        '\u{13}'
    } else if u == 20 {
        '\u{14}'
    } else if u == 21 {
        '\u{15}'
    } else if u == 22 {
        '\u{16}'
    } else if u == 23 {
        '\u{17}'
    } else if u == 24 {
        '\u{18}'
    } else if u == 25 {
        '\u{19}'
    } else if u == 26 {
        '\u{1a}'
    } else if u == 27 {
        '\u{1b}'
    } else if u == 28 {
        '\u{1c}'
    } else if u == 29 {
        '\u{1d}'
    } else if u == 30 {
        '\u{1e}'
    } else {
        '\u{1f}'
    }
}

/// The value of a hexadecimal digit character.
fn hexv_ex(c: char) -> (r: Option<u32>)
    ensures
        match r {
            Some(h) => hex_val(c) == h && h < 16,
            None => hex_val(c) < 0,
        },
{
    if is_digit_ex(c) {
        Some(c as u32 - 0x30)
    } else if c == 'a' || c == 'A' {
        Some(10)
    } else if c == 'b' || c == 'B' {
        Some(11)
    } else if c == 'c' || c == 'C' {
        Some(12)
    } else if c == 'd' || c == 'D' {
        Some(13)
    } else if c == 'e' || c == 'E' {
        Some(14)
    } else if c == 'f' || c == 'F' {
        Some(15)
    } else {
        None
    }
}

/// The character a short escape stands for.
fn esc_short_ex(c: char) -> (r: Option<char>)
    ensures
        r == esc_short(c),
{
    if c == '"' {
        Some('"')
    } else if c == '\\' {
        Some('\\')
    } else if c == '/' {
        Some('/')
    } else if c == 'n' {
        Some('\n')
    } else if c == 't' {
        Some('\t')
    } else if c == 'r' {
        Some('\r')
    } else if c == 'b' {
        Some('\u{8}')
    } else if c == 'f' {
        Some('\u{c}')
    } else {
        None
    }
}

/// Reads the characters of a string value up to its closing quote.
#[verifier::rlimit(50)]
fn parse_str_body_ex(v: &Vec<char>, i: usize) -> (r: Option<(Vec<char>, usize)>)
    requires
        i <= v@.len(),
    ensures
        match r {
            Some((b, j)) => i <= j <= v@.len() && parse_str_body(v@.skip(i as int)) == Some(
                (b@, v@.skip(j as int)),
            ),
            None => parse_str_body(v@.skip(i as int)) is None,
        },
    decreases v@.len() - i,
{
    let ghost s = v@.skip(i as int);
    if i == v.len() {
        return None;
    }
    let c = v[i];
    if c == '"' {
        let out: Vec<char> = Vec::new();
        proof {
            assert(s.drop_first() =~= v@.skip(i + 1));
            assert(out@ =~= Seq::<char>::empty());
        }
        return Some((out, i + 1));
    }
    if c == '\\' {
        if i + 1 == v.len() {
            return None;
        }
        let e = v[i + 1];
        if e == 'u' {
            if v.len() - i < 6 {
                return None;
            }
            let h2 = match hexv_ex(v[i + 2]) {
                Some(h) => h,
                None => {
                    return None;
                },
            };
            let h3 = match hexv_ex(v[i + 3]) {
                Some(h) => h,
                None => {
                    return None;
                },
            };
            let h4 = match hexv_ex(v[i + 4]) {
                Some(h) => h,
                None => {
                    return None;
                },
            };
            let h5 = match hexv_ex(v[i + 5]) {
                Some(h) => h,
                None => {
                    return None;
                },
            };
            let h: u32 = h2 * 4096 + h3 * 256 + h4 * 16 + h5;
            if h >= 0x20 {
                return None;
            }
            let c0 = control_char(h);
            proof {
                assert(s.skip(6) =~= v@.skip(i + 6));
                vstd::utf8::char_u32_cast(c0, h);
            }
            match parse_str_body_ex(v, i + 6) {
                None => None,
                Some((b, j)) => {
                    let mut b = b;
                    b.insert(0, c0);
                    proof {
                        assert(b@ =~= seq![c0] + b@.skip(1));
                    }
                    Some((b, j))
                },
            }
        } else {
            let c0 = match esc_short_ex(e) {
                Some(c0) => c0,
                None => {
                    return None;
                },
            };
            proof {
                assert(s.skip(2) =~= v@.skip(i + 2));
            }
            match parse_str_body_ex(v, i + 2) {
                None => None,
                Some((b, j)) => {
                    let mut b = b;
                    b.insert(0, c0);
                    proof {
                        assert(b@ =~= seq![c0] + b@.skip(1));
                    }
                    Some((b, j))
                },
            }
        }
    } else if (c as u32) < 0x20 {
        None
    } else {
        proof {
            assert(s.drop_first() =~= v@.skip(i + 1));
        }
        match parse_str_body_ex(v, i + 1) {
            None => None,
            Some((b, j)) => {
                let mut b = b;
                b.insert(0, c);
                proof {
                    assert(b@ =~= seq![c] + b@.skip(1));
                }
                Some((b, j))
            },
        }
    }
}

/// Reads a quoted string value.
fn parse_string_ex(v: &Vec<char>, i: usize) -> (r: Option<(Vec<char>, usize)>)
    requires
        i <= v@.len(),
    ensures
        match r {
            Some((b, j)) => i <= j <= v@.len() && parse_string(v@.skip(i as int)) == Some(
                (b@, v@.skip(j as int)),
            ),
            None => parse_string(v@.skip(i as int)) is None,
        },
{
    match tok_ex(v, i, '"') {
        None => None,
        Some(j) => parse_str_body_ex(v, j),
    }
}

/// Reads a string value that must be the given key.
fn parse_key_ex(v: &Vec<char>, i: usize, lit: &Vec<char>) -> (r: Option<usize>)
    requires
        i <= v@.len(),
    ensures
        match r {
            Some(j) => i <= j <= v@.len() && parse_key(v@.skip(i as int), lit@) == Some(
                v@.skip(j as int),
            ),
            None => parse_key(v@.skip(i as int), lit@) is None,
        },
{
    match parse_string_ex(v, i) {
        None => None,
        Some((k, j)) => {
            if chars_eq(&k, lit) {
                Some(j)
            } else {
                None
            }
        },
    }
}

/// Reads one bounding-box field.
fn parse_rect_field_ex(v: &Vec<char>, i: usize, lit: &Vec<char>) -> (r: Option<(i64, usize)>)
    requires
        i <= v@.len(),
    ensures
        match r {
            Some((x, j)) => i <= j <= v@.len() && parse_rect_field(v@.skip(i as int), lit@)
                == Some((x, v@.skip(j as int))),
            None => parse_rect_field(v@.skip(i as int), lit@) is None,
        },
{
    match parse_key_ex(v, i, lit) {
        None => None,
        Some(t) => match tok_ex(v, t, ':') {
            None => None,
            Some(t2) => parse_int_ex(v, t2),
        },
    }
}

/// Reads a bounding box.
fn parse_rect_ex(v: &Vec<char>, i: usize) -> (r: Option<(Rect, usize)>)
    requires
        i <= v@.len(),
    ensures
        match r {
            Some((x, j)) => i < j <= v@.len() && parse_rect(v@.skip(i as int)) == Some(
                (x, v@.skip(j as int)),
            ),
            None => parse_rect(v@.skip(i as int)) is None,
        },
{
    proof {
        reveal(parse_rect);
    }
    let lleft = str_to_chars("left");
    let ltop = str_to_chars("top");
    let lright = str_to_chars("right");
    let lbottom = str_to_chars("bottom");
    proof {
        reveal_strlit("left");
        reveal_strlit("top");
        reveal_strlit("right");
        reveal_strlit("bottom");
        assert(lleft@ =~= lit_left());
        assert(ltop@ =~= lit_top());
        assert(lright@ =~= lit_right());
        assert(lbottom@ =~= lit_bottom());
    }
    let t0 = match tok_ex(v, i, '{') {
        None => {
            return None;
        },
        Some(t) => t,
    };
    let (l, t1) = match parse_rect_field_ex(v, t0, &lleft) {
        None => {
            return None;
        },
        Some(x) => x,
    };
    let t2 = match tok_ex(v, t1, ',') {
        None => {
            return None;
        },
        Some(t) => t,
    };
    let (tp, t3) = match parse_rect_field_ex(v, t2, &ltop) {
        None => {
            return None;
        },
        Some(x) => x,
    };
    let t4 = match tok_ex(v, t3, ',') {
        None => {
            return None;
        },
        Some(t) => t,
    };
    let (rg, t5) = match parse_rect_field_ex(v, t4, &lright) {
        None => {
            return None;
        },
        Some(x) => x,
    };
    let t6 = match tok_ex(v, t5, ',') {
        None => {
            return None;
        },
        Some(t) => t,
    };
    let (b, t7) = match parse_rect_field_ex(v, t6, &lbottom) {
        None => {
            return None;
        },
        Some(x) => x,
    };
    match tok_ex(v, t7, '}') {
        None => None,
        Some(j) => Some((Rect { left: l, top: tp, right: rg, bottom: b }, j)),
    }
}

/// Reads one landmark point.
fn parse_point_ex(v: &Vec<char>, i: usize) -> (r: Option<((i64, i64), usize)>)
    requires
        i <= v@.len(),
    ensures
        match r {
            Some((p, j)) => i < j <= v@.len() && parse_point(v@.skip(i as int)) == Some(
                (p, v@.skip(j as int)),
            ),
            None => parse_point(v@.skip(i as int)) is None,
        },
{
    let t0 = match tok_ex(v, i, '[') {
        None => {
            return None;
        },
        Some(t) => t,
    };
    let (x, t1) = match parse_int_ex(v, t0) {
        None => {
            return None;
        },
        Some(x) => x,
    };
    let t2 = match tok_ex(v, t1, ',') {
        None => {
            return None;
        },
        Some(t) => t,
    };
    let (y, t3) = match parse_int_ex(v, t2) {
        None => {
            return None;
        },
        Some(x) => x,
    };
    match tok_ex(v, t3, ']') {
        None => None,
        Some(j) => Some(((x, y), j)),
    }
}

/// Reads the landmark points after the first.
fn parse_points_rest_ex(v: &Vec<char>, i: usize) -> (r: Option<(Vec<(i64, i64)>, usize)>)
    requires
        i <= v@.len(),
    ensures
        match r {
            Some((ps, j)) => i <= j <= v@.len() && parse_points_rest(v@.skip(i as int)) == Some(
                (ps@, v@.skip(j as int)),
            ),
            None => parse_points_rest(v@.skip(i as int)) is None,
        },
    decreases v@.len() - i,
{
    match tok_ex(v, i, ']') {
        Some(j) => {
            let out: Vec<(i64, i64)> = Vec::new();
            proof {
                assert(out@ =~= Seq::<(i64, i64)>::empty());
            }
            return Some((out, j));
        },
        None => {},
    }
    let t = match tok_ex(v, i, ',') {
        None => {
            return None;
        },
        Some(t) => t,
    };
    let (p, r0) = match parse_point_ex(v, t) {
        None => {
            return None;
        },
        Some(x) => x,
    };
    match parse_points_rest_ex(v, r0) {
        None => None,
        Some((ps, j)) => {
            let mut ps = ps;
            ps.insert(0, p);
            proof {
                assert(ps@ =~= seq![p] + ps@.skip(1));
            }
            Some((ps, j))
        },
    }
}

/// Reads a landmark point list.
fn parse_points_ex(v: &Vec<char>, i: usize) -> (r: Option<(Vec<(i64, i64)>, usize)>)
    requires
        i <= v@.len(),
    ensures
        match r {
            Some((ps, j)) => i <= j <= v@.len() && parse_points(v@.skip(i as int)) == Some(
                (ps@, v@.skip(j as int)),
            ),
            None => parse_points(v@.skip(i as int)) is None,
        },
{
    let t = match tok_ex(v, i, '[') {
        None => {
            return None;
        },
        Some(t) => t,
    };
    match tok_ex(v, t, ']') {
        Some(j) => {
            let out: Vec<(i64, i64)> = Vec::new();
            proof {
                assert(out@ =~= Seq::<(i64, i64)>::empty());
            }
            return Some((out, j));
        },
        None => {},
    }
    let (p, r0) = match parse_point_ex(v, t) {
        None => {
            return None;
        },
        Some(x) => x,
    };
    match parse_points_rest_ex(v, r0) {
        None => None,
        Some((ps, j)) => {
            let mut ps = ps;
            ps.insert(0, p);
            proof {
                assert(ps@ =~= seq![p] + ps@.skip(1));
            }
            Some((ps, j))
        },
    }
}

/// Reads one face.
fn parse_face_ex(v: &Vec<char>, i: usize) -> (r: Option<(Face, usize)>)
    requires
        i <= v@.len(),
    ensures
        match r {
            Some((f, j)) => i < j <= v@.len() && parse_face(v@.skip(i as int)) == Some(
                (f@, v@.skip(j as int)),
            ),
            None => parse_face(v@.skip(i as int)) is None,
        },
{
    proof {
        reveal(parse_face);
    }
    let t0 = match tok_ex(v, i, '[') {
        None => {
            return None;
        },
        Some(t) => t,
    };
    let (rect, t1) = match parse_rect_ex(v, t0) {
        None => {
            return None;
        },
        Some(x) => x,
    };
    let t2 = match tok_ex(v, t1, ',') {
        None => {
            return None;
        },
        Some(t) => t,
    };
    let (ps, t3) = match parse_points_ex(v, t2) {
        None => {
            return None;
        },
        Some(x) => x,
    };
    match tok_ex(v, t3, ']') {
        None => None,
        Some(j) => {
            let f = Face(rect, Landmarks::new(ps));
            proof {
                lemma_face_view(&f);
            }
            Some((f, j))
        },
    }
}

/// Reads the faces after the first.
fn parse_faces_rest_ex(v: &Vec<char>, i: usize) -> (r: Option<(Vec<Face>, usize)>)
    requires
        i <= v@.len(),
    ensures
        match r {
            Some((fs, j)) => i <= j <= v@.len() && parse_faces_rest(v@.skip(i as int)) == Some(
                (faces_view(fs@), v@.skip(j as int)),
            ),
            None => parse_faces_rest(v@.skip(i as int)) is None,
        },
    decreases v@.len() - i,
{
    match tok_ex(v, i, ']') {
        Some(j) => {
            let out: Vec<Face> = Vec::new();
            proof {
                assert(faces_view(out@) =~= Seq::<FaceV>::empty());
            }
            return Some((out, j));
        },
        None => {},
    }
    let t = match tok_ex(v, i, ',') {
        None => {
            return None;
        },
        Some(t) => t,
    };
    let (f, r0) = match parse_face_ex(v, t) {
        None => {
            return None;
        },
        Some(x) => x,
    };
    match parse_faces_rest_ex(v, r0) {
        None => None,
        Some((fs, j)) => {
            let ghost tailv = faces_view(fs@);
            let mut fs = fs;
            fs.insert(0, f);
            proof {
                assert(faces_view(fs@) =~= seq![f@] + tailv);
            }
            Some((fs, j))
        },
    }
}

/// Reads a face list.
fn parse_faces_ex(v: &Vec<char>, i: usize) -> (r: Option<(Faces, usize)>)
    requires
        i <= v@.len(),
    ensures
        match r {
            Some((fs, j)) => i <= j <= v@.len() && parse_faces(v@.skip(i as int)) == Some(
                (fs@, v@.skip(j as int)),
            ),
            None => parse_faces(v@.skip(i as int)) is None,
        },
{
    let t = match tok_ex(v, i, '[') {
        None => {
            return None;
        },
        Some(t) => t,
    };
    match tok_ex(v, t, ']') {
        Some(j) => {
            let out: Vec<Face> = Vec::new();
            proof {
                assert(faces_view(out@) =~= Seq::<FaceV>::empty());
            }
            return Some((Faces::new(out), j));
        },
        None => {},
    }
    let (f, r0) = match parse_face_ex(v, t) {
        None => {
            return None;
        },
        Some(x) => x,
    };
    match parse_faces_rest_ex(v, r0) {
        None => None,
        Some((fs, j)) => {
            let ghost tailv = faces_view(fs@);
            let mut fs = fs;
            fs.insert(0, f);
            proof {
                assert(faces_view(fs@) =~= seq![f@] + tailv);
            }
            Some((Faces::new(fs), j))
        },
    }
}

/// Reads one mapping entry.
fn parse_entry_ex(v: &Vec<char>, i: usize) -> (r: Option<((String, Faces), usize)>)
    requires
        i <= v@.len(),
    ensures
        match r {
            Some((e, j)) => i < j <= v@.len() && parse_entry(v@.skip(i as int)) == Some(
                ((e.0@, e.1@), v@.skip(j as int)),
            ),
            None => parse_entry(v@.skip(i as int)) is None,
        },
{
    let (k, t0) = match parse_string_ex(v, i) {
        None => {
            return None;
        },
        Some(x) => x,
    };
    let t1 = match tok_ex(v, t0, ':') {
        None => {
            return None;
        },
        Some(t) => t,
    };
    match parse_faces_ex(v, t1) {
        None => None,
        Some((fs, j)) => {
            let name = chars_to_string(&k);
            Some(((name, fs), j))
        },
    }
}

/// Reads the entries after the first.
fn parse_entries_rest_ex(v: &Vec<char>, i: usize) -> (r: Option<(Vec<(String, Faces)>, usize)>)
    requires
        i <= v@.len(),
    ensures
        match r {
            Some((es, j)) => i <= j <= v@.len() && parse_entries_rest(v@.skip(i as int)) == Some(
                (entries_view(es@), v@.skip(j as int)),
            ),
            None => parse_entries_rest(v@.skip(i as int)) is None,
        },
    decreases v@.len() - i,
{
    match tok_ex(v, i, '}') {
        Some(j) => {
            let out: Vec<(String, Faces)> = Vec::new();
            proof {
                assert(entries_view(out@) =~= Seq::<EntryV>::empty());
            }
            return Some((out, j));
        },
        None => {},
    }
    let t = match tok_ex(v, i, ',') {
        None => {
            return None;
        },
        Some(t) => t,
    };
    let (e, r0) = match parse_entry_ex(v, t) {
        None => {
            return None;
        },
        Some(x) => x,
    };
    match parse_entries_rest_ex(v, r0) {
        None => None,
        Some((es, j)) => {
            let ghost tailv = entries_view(es@);
            let ghost ev = (e.0@, e.1@);
            let mut es = es;
            es.insert(0, e);
            proof {
                assert(entries_view(es@) =~= seq![ev] + tailv);
            }
            Some((es, j))
        },
    }
}

/// Reads the name-to-faces mapping, in file order.
fn parse_entries_ex(v: &Vec<char>, i: usize) -> (r: Option<(Vec<(String, Faces)>, usize)>)
    requires
        i <= v@.len(),
    ensures
        match r {
            Some((es, j)) => i <= j <= v@.len() && parse_entries(v@.skip(i as int)) == Some(
                (entries_view(es@), v@.skip(j as int)),
            ),
            None => parse_entries(v@.skip(i as int)) is None,
        },
{
    let t = match tok_ex(v, i, '{') {
        None => {
            return None;
        },
        Some(t) => t,
    };
    match tok_ex(v, t, '}') {
        Some(j) => {
            let out: Vec<(String, Faces)> = Vec::new();
            proof {
                assert(entries_view(out@) =~= Seq::<EntryV>::empty());
            }
            return Some((out, j));
        },
        None => {},
    }
    let (e, r0) = match parse_entry_ex(v, t) {
        None => {
            return None;
        },
        Some(x) => x,
    };
    match parse_entries_rest_ex(v, r0) {
        None => None,
        Some((es, j)) => {
            let ghost tailv = entries_view(es@);
            let ghost ev = (e.0@, e.1@);
            let mut es = es;
            es.insert(0, e);
            proof {
                assert(entries_view(es@) =~= seq![ev] + tailv);
            }
            Some((es, j))
        },
    }
}

/// Decodes a document into a feature store.
///
/// The result is exactly what the document denotes: a malformed document
/// yields nothing, and a well-formed one yields the sorted store with a
/// later duplicate name replacing an earlier one.
pub fn decode_features(s: &str) -> (r: Option<Features>)
    ensures
        match spec_decode(s@) {
            Some(fv) => match r {
                Some(f) => f@ == fv && f.wf(),
                None => false,
            },
            None => r is None,
        },
{
    proof {
        reveal(parse_features);
    }
    let v = str_to_chars(s);
    proof {
        assert(v@.skip(0) =~= s@);
    }
    let lbasedir = str_to_chars("basedir");
    let lfeatures = str_to_chars("features");
    proof {
        reveal_strlit("basedir");
        reveal_strlit("features");
        assert(lbasedir@ =~= lit_basedir());
        assert(lfeatures@ =~= lit_features());
    }
    let t0 = match tok_ex(&v, 0, '{') {
        None => {
            return None;
        },
        Some(t) => t,
    };
    let t1 = match parse_key_ex(&v, t0, &lbasedir) {
        None => {
            return None;
        },
        Some(t) => t,
    };
    let t2 = match tok_ex(&v, t1, ':') {
        None => {
            return None;
        },
        Some(t) => t,
    };
    let (bd, t3) = match parse_string_ex(&v, t2) {
        None => {
            return None;
        },
        Some(x) => x,
    };
    let t4 = match tok_ex(&v, t3, ',') {
        None => {
            return None;
        },
        Some(t) => t,
    };
    let t5 = match parse_key_ex(&v, t4, &lfeatures) {
        None => {
            return None;
        },
        Some(t) => t,
    };
    let t6 = match tok_ex(&v, t5, ':') {
        None => {
            return None;
        },
        Some(t) => t,
    };
    let (mut entries, t7) = match parse_entries_ex(&v, t6) {
        None => {
            return None;
        },
        Some(x) => x,
    };
    let t8 = match tok_ex(&v, t7, '}') {
        None => {
            return None;
        },
        Some(t) => t,
    };
    let t9 = ws_end(&v, t8);
    if t9 < v.len() {
        return None;
    }
    let basedir = chars_to_string(&bd);
    let mut out = Features::new(basedir);
    let ghost ev = entries_view(entries@);
    let n_entries = entries.len();
    proof {
        assert(ev.len() == n_entries);
        assert(insert_all(ev.take(0)) =~= Seq::<EntryV>::empty());
        assert(ev.skip(0) =~= ev);
    }
    let mut c: usize = 0;
    while entries.len() > 0
        invariant
            out.wf(),
            out@.basedir == bd@,
            c + entries@.len() == ev.len(),
            ev.len() <= usize::MAX,
            entries_view(entries@) == ev.skip(c as int),
            out@.entries == insert_all(ev.take(c as int)),
        decreases entries@.len(),
    {
        let ghost old_entries = entries@;
        let (name, faces) = entries.remove(0);
        proof {
            assert forall|m: int| 0 <= m < entries@.len() implies entries_view(entries@)[m]
                == ev.skip(c + 1)[m] by {
                assert(entries@[m] == old_entries[m + 1]);
                assert(entries_view(old_entries)[m + 1] == ev.skip(c as int)[m + 1]);
            }
            assert(entries_view(entries@) =~= ev.skip(c + 1));
            assert(entries_view(old_entries)[0] == ev.skip(c as int)[0]);
            assert((name@, faces@) == ev[c as int]);
        }
        let ghost before = out@.entries;
        out.insert(name, faces);
        proof {
            assert(ev.take(c + 1).drop_last() =~= ev.take(c as int));
            assert(ev.take(c + 1).last() == ev[c as int]);
            assert(out@.entries == insert_all(ev.take(c + 1)));
        }
        c = c + 1;
    }
    proof {
        assert(ev.take(ev.len() as int) =~= ev);
        assert(ev.skip(0) =~= ev);
    }
    Some(out)
}

} // verus!
