//! The feature store's text form: the encoder.
//!
//! A store is written as one structured text document: an object holding the
//! base directory string and the name-to-faces mapping; each face is a pair
//! of its bounding box object and its landmark point list. The same schema
//! has a compact and a pretty-printed form; the two differ only in inserted
//! whitespace, and both decode back to the same store.

use vstd::prelude::*;

use crate::features::EntryV;
use crate::features::Features;
use crate::features::FeaturesV;
use crate::landmarks::Face;
use crate::landmarks::Faces;
use crate::landmarks::FaceV;
use crate::landmarks::Rect;
use crate::landmarks::lemma_face_view;
use crate::text::push_char;
use crate::text::str_to_chars;

verus! {

/// The whitespace characters that may stand between tokens.
pub open spec fn is_ws(c: char) -> bool {
    c == ' ' || c == '\n' || c == '\t' || c == '\r'
}

/// `n` spaces.
pub open spec fn spaces(n: nat) -> Seq<char>
    decreases n,
{
    if n == 0 {
        Seq::empty()
    } else {
        spaces((n - 1) as nat).push(' ')
    }
}

/// The pretty form breaks the line and indents two spaces per depth; the
/// compact form inserts nothing.
pub open spec fn nl(pretty: bool, depth: nat) -> Seq<char> {
    if pretty {
        seq!['\n'] + spaces(2 * depth)
    } else {
        Seq::empty()
    }
}

/// What stands between a key and its value.
pub open spec fn key_sep(pretty: bool) -> Seq<char> {
    if pretty {
        seq![':', ' ']
    } else {
        seq![':']
    }
}

/// The decimal digit `d` as a character.
pub open spec fn digit_char(d: int) -> char {
    if d == 0 {
        '0'
    } else if d == 1 {
        '1'
    } else if d == 2 {
        '2'
    } else if d == 3 {
        '3'
    } else if d == 4 {
        '4'
    } else if d == 5 {
        '5'
    } else if d == 6 {
        '6'
    } else if d == 7 {
        '7'
    } else if d == 8 {
        '8'
    } else {
        '9'
    }
}

/// The hexadecimal digit `d` as a lower-case character.
pub open spec fn hex_char(d: int) -> char {
    if d < 10 {
        digit_char(d)
    } else if d == 10 {
        'a'
    } else if d == 11 {
        'b'
    } else if d == 12 {
        'c'
    } else if d == 13 {
        'd'
    } else if d == 14 {
        'e'
    } else {
        'f'
    }
}

/// A natural number in decimal, most significant digit first, no leading
/// zero except for the number zero itself.
pub open spec fn enc_nat(n: nat) -> Seq<char>
    decreases n,
{
    if n < 10 {
        seq![digit_char(n as int)]
    } else {
        enc_nat(n / 10).push(digit_char((n % 10) as int))
    }
}

/// An integer in decimal: a minus sign for negative values, then the
/// magnitude.
pub open spec fn enc_int(v: int) -> Seq<char> {
    if v < 0 {
        seq!['-'] + enc_nat((-v) as nat)
    } else {
        enc_nat(v as nat)
    }
}

/// One character inside a string: quote and backslash are escaped, control
/// characters become a four-digit escape, everything else stands verbatim.
pub open spec fn esc_char(c: char) -> Seq<char> {
    if c == '"' {
        seq!['\\', '"']
    } else if c == '\\' {
        seq!['\\', '\\']
    } else if (c as u32) < 0x20 {
        seq!['\\', 'u', '0', '0', hex_char((c as u32) as int / 16), hex_char((c as u32) as int % 16)]
    } else {
        seq![c]
    }
}

/// The characters of a string value, each escaped as needed.
pub open spec fn enc_str_body(s: Seq<char>) -> Seq<char>
    decreases s.len(),
{
    if s.len() == 0 {
        Seq::empty()
    } else {
        esc_char(s[0]) + enc_str_body(s.drop_first())
    }
}

/// A string value in quotes.
pub open spec fn enc_string(s: Seq<char>) -> Seq<char> {
    seq!['"'] + enc_str_body(s) + seq!['"']
}

/// The four bounding-box keys and the two top-level keys.
pub open spec fn lit_left() -> Seq<char> {
    seq!['l', 'e', 'f', 't']
}

pub open spec fn lit_top() -> Seq<char> {
    seq!['t', 'o', 'p']
}

pub open spec fn lit_right() -> Seq<char> {
    seq!['r', 'i', 'g', 'h', 't']
}

pub open spec fn lit_bottom() -> Seq<char> {
    seq!['b', 'o', 't', 't', 'o', 'm']
}

pub open spec fn lit_basedir() -> Seq<char> {
    seq!['b', 'a', 's', 'e', 'd', 'i', 'r']
}

pub open spec fn lit_features() -> Seq<char> {
    seq!['f', 'e', 'a', 't', 'u', 'r', 'e', 's']
}

/// One bounding-box field: its quoted key, a colon, and its value.
#[verifier::opaque]
pub open spec fn enc_field(lit: Seq<char>, v: int) -> Seq<char> {
    enc_string(lit) + (seq![':'] + enc_int(v))
}

/// A bounding box: an object with the four edge keys, always on one line.
#[verifier::opaque]
pub open spec fn enc_rect(r: Rect) -> Seq<char> {
    seq!['{'] + (enc_field(lit_left(), r.left as int) + (seq![','] + (enc_field(
        lit_top(),
        r.top as int,
    ) + (seq![','] + (enc_field(lit_right(), r.right as int) + (seq![','] + (enc_field(
        lit_bottom(),
        r.bottom as int,
    ) + seq!['}'])))))))
}

/// A landmark point: a two-element list of its coordinates.
pub open spec fn enc_point(p: (i64, i64)) -> Seq<char> {
    seq!['['] + enc_int(p.0 as int) + seq![','] + enc_int(p.1 as int) + seq![']']
}

/// The points after the first, each preceded by a comma.
pub open spec fn enc_points_rest(ps: Seq<(i64, i64)>) -> Seq<char>
    decreases ps.len(),
{
    if ps.len() == 0 {
        Seq::empty()
    } else {
        seq![','] + enc_point(ps[0]) + enc_points_rest(ps.drop_first())
    }
}

/// A landmark point list, always on one line.
pub open spec fn enc_points(ps: Seq<(i64, i64)>) -> Seq<char> {
    if ps.len() == 0 {
        seq!['[', ']']
    } else {
        seq!['['] + enc_point(ps[0]) + enc_points_rest(ps.drop_first()) + seq![']']
    }
}

/// One face: the pair of its bounding box and its point list.
#[verifier::opaque]
pub open spec fn enc_face(f: FaceV) -> Seq<char> {
    seq!['['] + enc_rect(f.rect) + seq![','] + enc_points(f.points) + seq![']']
}

/// The faces after the first, each preceded by a comma and, in the pretty
/// form, a fresh indented line.
pub open spec fn enc_faces_rest(fs: Seq<FaceV>, pretty: bool, depth: nat) -> Seq<char>
    decreases fs.len(),
{
    if fs.len() == 0 {
        Seq::empty()
    } else {
        seq![','] + nl(pretty, depth + 1) + enc_face(fs[0]) + enc_faces_rest(
            fs.drop_first(),
            pretty,
            depth,
        )
    }
}

/// The face list of one image.
pub open spec fn enc_faces(fs: Seq<FaceV>, pretty: bool, depth: nat) -> Seq<char> {
    if fs.len() == 0 {
        seq!['[', ']']
    } else {
        seq!['['] + nl(pretty, depth + 1) + enc_face(fs[0]) + enc_faces_rest(
            fs.drop_first(),
            pretty,
            depth,
        ) + nl(pretty, depth) + seq![']']
    }
}

/// One mapping entry: the image name as key, its face list as value.
#[verifier::opaque]
pub open spec fn enc_entry(e: EntryV, pretty: bool, depth: nat) -> Seq<char> {
    enc_string(e.0) + key_sep(pretty) + enc_faces(e.1, pretty, depth)
}

/// The entries after the first.
pub open spec fn enc_entries_rest(es: Seq<EntryV>, pretty: bool, depth: nat) -> Seq<char>
    decreases es.len(),
{
    if es.len() == 0 {
        Seq::empty()
    } else {
        seq![','] + nl(pretty, depth + 1) + enc_entry(es[0], pretty, depth + 1) + enc_entries_rest(
            es.drop_first(),
            pretty,
            depth,
        )
    }
}

/// The name-to-faces mapping as an object.
pub open spec fn enc_entries(es: Seq<EntryV>, pretty: bool, depth: nat) -> Seq<char> {
    if es.len() == 0 {
        seq!['{', '}']
    } else {
        seq!['{'] + nl(pretty, depth + 1) + enc_entry(es[0], pretty, depth + 1) + enc_entries_rest(
            es.drop_first(),
            pretty,
            depth,
        ) + nl(pretty, depth) + seq!['}']
    }
}

/// A whole feature store as one document.
pub open spec fn enc_features(f: FeaturesV, pretty: bool) -> Seq<char> {
    seq!['{'] + nl(pretty, 1) + enc_string(lit_basedir()) + key_sep(pretty) + enc_string(f.basedir)
        + seq![','] + nl(pretty, 1) + enc_string(lit_features()) + key_sep(pretty) + enc_entries(
        f.entries,
        pretty,
        1,
    ) + nl(pretty, 0) + seq!['}']
}

/// The decimal digit `d`.
fn digit_ex(d: u64) -> (r: char)
    requires
        d < 10,
    ensures
        r == digit_char(d as int),
{
    if d == 0 {
        '0'
    } else if d == 1 {
        '1'
    } else if d == 2 {
        '2'
    } else if d == 3 {
        '3'
    } else if d == 4 {
        '4'
    } else if d == 5 {
        '5'
    } else if d == 6 {
        '6'
    } else if d == 7 {
        '7'
    } else if d == 8 {
        '8'
    } else {
        '9'
    }
}

/// The lower-case hexadecimal digit `d`.
fn hex_ex(d: u32) -> (r: char)
    requires
        d < 16,
    ensures
        r == hex_char(d as int),
{
    if d < 10 {
        digit_ex(d as u64)
    } else if d == 10 {
        'a'
    } else if d == 11 {
        'b'
    } else if d == 12 {
        'c'
    } else if d == 13 {
        'd'
    } else if d == 14 {
        'e'
    } else {
        'f'
    }
}

/// Appends the line break and indentation of one depth step.
fn push_nl(out: &mut String, pretty: bool, depth: usize)
    requires
        depth <= 16,
    ensures
        final(out)@ == old(out)@ + nl(pretty, depth as nat),
{
    if !pretty {
        proof {
            assert(old(out)@ + nl(pretty, depth as nat) =~= old(out)@);
        }
        return ;
    }
    push_char(out, '\n');
    let mut i: usize = 0;
    while i < 2 * depth
        invariant
            pretty,
            depth <= 16,
            i <= 2 * depth,
            out@ == old(out)@ + seq!['\n'] + spaces(i as nat),
        decreases 2 * depth - i,
    {
        push_char(out, ' ');
        i = i + 1;
    }
    proof {
        assert(old(out)@ + seq!['\n'] + spaces(2 * depth as nat) =~= old(out)@ + nl(
            pretty,
            depth as nat,
        ));
    }
}

/// Appends a natural number in decimal.
fn push_nat(out: &mut String, n: u64)
    ensures
        final(out)@ == old(out)@ + enc_nat(n as nat),
    decreases n,
{
    if n < 10 {
        push_char(out, digit_ex(n));
        proof {
            assert(old(out)@.push(digit_char(n as int)) =~= old(out)@ + enc_nat(n as nat));
        }
    } else {
        push_nat(out, n / 10);
        push_char(out, digit_ex(n % 10));
        proof {
            assert((old(out)@ + enc_nat((n / 10) as nat)).push(digit_char((n % 10) as int))
                =~= old(out)@ + enc_nat(n as nat));
        }
    }
}

/// Appends an integer in decimal.
fn push_int(out: &mut String, v: i64)
    ensures
        final(out)@ == old(out)@ + enc_int(v as int),
{
    if v < 0 {
        push_char(out, '-');
        let m: u64 = (-(v as i128)) as u64;
        push_nat(out, m);
        proof {
            assert(old(out)@.push('-') + enc_nat(m as nat) =~= old(out)@ + enc_int(v as int));
        }
    } else {
        push_nat(out, v as u64);
    }
}

/// Appends one string character, escaped as needed.
fn push_esc(out: &mut String, c: char)
    ensures
        final(out)@ == old(out)@ + esc_char(c),
{
    if c == '"' {
        push_char(out, '\\');
        push_char(out, '"');
        proof {
            assert(old(out)@.push('\\').push('"') =~= old(out)@ + esc_char(c));
        }
    } else if c == '\\' {
        push_char(out, '\\');
        push_char(out, '\\');
        proof {
            assert(old(out)@.push('\\').push('\\') =~= old(out)@ + esc_char(c));
        }
    } else if (c as u32) < 0x20 {
        let u = c as u32;
        push_char(out, '\\');
        push_char(out, 'u');
        push_char(out, '0');
        push_char(out, '0');
        push_char(out, hex_ex(u / 16));
        push_char(out, hex_ex(u % 16));
        proof {
            assert(old(out)@.push('\\').push('u').push('0').push('0').push(
                hex_char(u as int / 16),
            ).push(hex_char(u as int % 16)) =~= old(out)@ + esc_char(c));
        }
    } else {
        push_char(out, c);
        proof {
            assert(old(out)@.push(c) =~= old(out)@ + esc_char(c));
        }
    }
}

/// Appends the escaped characters of a string value from position `i` on.
fn push_str_body(out: &mut String, s: &Vec<char>, i: usize)
    requires
        i <= s@.len(),
    ensures
        final(out)@ == old(out)@ + enc_str_body(s@.skip(i as int)),
    decreases s@.len() - i,
{
    if i == s.len() {
        proof {
            assert(old(out)@ + enc_str_body(s@.skip(i as int)) =~= old(out)@);
        }
        return ;
    }
    push_esc(out, s[i]);
    push_str_body(out, s, i + 1);
    proof {
        assert(s@.skip(i as int).drop_first() =~= s@.skip(i + 1));
        assert((old(out)@ + esc_char(s@[i as int])) + enc_str_body(s@.skip(i + 1)) =~= old(out)@
            + enc_str_body(s@.skip(i as int)));
    }
}

/// Appends a quoted string value.
fn push_string(out: &mut String, s: &str)
    ensures
        final(out)@ == old(out)@ + enc_string(s@),
{
    let chars = str_to_chars(s);
    push_char(out, '"');
    proof {
        assert(chars@.skip(0) =~= chars@);
    }
    push_str_body(out, &chars, 0);
    push_char(out, '"');
    proof {
        assert((old(out)@.push('"') + enc_str_body(s@)).push('"') =~= old(out)@ + enc_string(s@));
    }
}

/// Appends a bounding box.
#[verifier::rlimit(50)]
fn push_rect(out: &mut String, r: &Rect)
    ensures
        final(out)@ == old(out)@ + enc_rect(*r),
{
    push_char(out, '{');
    push_string(out, "left");
    push_char(out, ':');
    push_int(out, r.left);
    push_char(out, ',');
    push_string(out, "top");
    push_char(out, ':');
    push_int(out, r.top);
    push_char(out, ',');
    push_string(out, "right");
    push_char(out, ':');
    push_int(out, r.right);
    push_char(out, ',');
    push_string(out, "bottom");
    push_char(out, ':');
    push_int(out, r.bottom);
    push_char(out, '}');
    proof {
        reveal(enc_rect);
        reveal(enc_field);
        reveal_strlit("left");
        reveal_strlit("top");
        reveal_strlit("right");
        reveal_strlit("bottom");
        assert("left"@ =~= lit_left());
        assert("top"@ =~= lit_top());
        assert("right"@ =~= lit_right());
        assert("bottom"@ =~= lit_bottom());
        assert(out@ =~= old(out)@ + enc_rect(*r));
    }
}

/// Appends one landmark point.
fn push_point(out: &mut String, p: (i64, i64))
    ensures
        final(out)@ == old(out)@ + enc_point(p),
{
    push_char(out, '[');
    push_int(out, p.0);
    push_char(out, ',');
    push_int(out, p.1);
    push_char(out, ']');
    proof {
        assert(out@ =~= old(out)@ + enc_point(p));
    }
}

/// Appends the landmark points from position `i` on, each preceded by a
/// comma.
fn push_points_rest(out: &mut String, ps: &Vec<(i64, i64)>, i: usize)
    requires
        i <= ps@.len(),
    ensures
        final(out)@ == old(out)@ + enc_points_rest(ps@.skip(i as int)),
    decreases ps@.len() - i,
{
    if i == ps.len() {
        proof {
            assert(old(out)@ + enc_points_rest(ps@.skip(i as int)) =~= old(out)@);
        }
        return ;
    }
    push_char(out, ',');
    push_point(out, ps[i]);
    push_points_rest(out, ps, i + 1);
    proof {
        assert(ps@.skip(i as int).drop_first() =~= ps@.skip(i + 1));
        assert(((old(out)@.push(',')) + enc_point(ps@[i as int])) + enc_points_rest(
            ps@.skip(i + 1),
        ) =~= old(out)@ + enc_points_rest(ps@.skip(i as int)));
    }
}

/// Appends a landmark point list.
fn push_points(out: &mut String, ps: &Vec<(i64, i64)>)
    ensures
        final(out)@ == old(out)@ + enc_points(ps@),
{
    if ps.len() == 0 {
        push_char(out, '[');
        push_char(out, ']');
        proof {
            assert(old(out)@.push('[').push(']') =~= old(out)@ + enc_points(ps@));
        }
        return ;
    }
    push_char(out, '[');
    push_point(out, ps[0]);
    proof {
        assert(ps@.skip(1) =~= ps@.drop_first());
    }
    push_points_rest(out, ps, 1);
    push_char(out, ']');
    proof {
        assert(out@ =~= old(out)@ + enc_points(ps@));
    }
}

/// Appends one face.
#[verifier::rlimit(50)]
fn push_face(out: &mut String, f: &Face)
    ensures
        final(out)@ == old(out)@ + enc_face(f@),
{
    proof {
        reveal(enc_face);
        lemma_face_view(f);
    }
    push_char(out, '[');
    push_rect(out, &f.0);
    push_char(out, ',');
    push_points(out, f.1.points());
    push_char(out, ']');
    proof {
        assert(out@ =~= old(out)@ + enc_face(f@)) by {
            reveal(enc_face);
        }
    }
}

/// Appends the faces from position `i` on, each preceded by a comma.
#[verifier::rlimit(50)]
fn push_faces_rest(out: &mut String, fs: &Faces, i: usize, pretty: bool, depth: usize)
    requires
        i <= fs@.len(),
        depth <= 8,
    ensures
        final(out)@ == old(out)@ + enc_faces_rest(fs@.skip(i as int), pretty, depth as nat),
    decreases fs@.len() - i,
{
    if i == fs.len() {
        proof {
            assert(old(out)@ + enc_faces_rest(fs@.skip(i as int), pretty, depth as nat) =~= old(
                out,
            )@);
        }
        return ;
    }
    push_char(out, ',');
    push_nl(out, pretty, depth + 1);
    push_face(out, fs.face(i));
    push_faces_rest(out, fs, i + 1, pretty, depth);
    proof {
        assert(fs@.skip(i as int).drop_first() =~= fs@.skip(i + 1));
        assert(out@ =~= old(out)@ + enc_faces_rest(
            fs@.skip(i as int),
            pretty,
            depth as nat,
        ));
    }
}

/// Appends a face list.
#[verifier::rlimit(50)]
fn push_faces(out: &mut String, fs: &Faces, pretty: bool, depth: usize)
    requires
        depth <= 8,
    ensures
        final(out)@ == old(out)@ + enc_faces(fs@, pretty, depth as nat),
{
    if fs.len() == 0 {
        push_char(out, '[');
        push_char(out, ']');
        proof {
            assert(old(out)@.push('[').push(']') =~= old(out)@ + enc_faces(
                fs@,
                pretty,
                depth as nat,
            ));
        }
        return ;
    }
    push_char(out, '[');
    push_nl(out, pretty, depth + 1);
    push_face(out, fs.face(0));
    proof {
        assert(fs@.skip(1) =~= fs@.drop_first());
    }
    push_faces_rest(out, fs, 1, pretty, depth);
    push_nl(out, pretty, depth);
    push_char(out, ']');
    proof {
        assert(out@ =~= old(out)@ + enc_faces(fs@, pretty, depth as nat));
    }
}

/// Appends one mapping entry.
#[verifier::rlimit(50)]
fn push_entry(out: &mut String, e: &(String, Faces), pretty: bool, depth: usize)
    requires
        depth <= 8,
    ensures
        final(out)@ == old(out)@ + enc_entry((e.0@, e.1@), pretty, depth as nat),
{
    push_string(out, e.0.as_str());
    push_char(out, ':');
    if pretty {
        push_char(out, ' ');
    }
    push_faces(out, &e.1, pretty, depth);
    proof {
        reveal(enc_entry);
        assert(out@ =~= old(out)@ + enc_entry((e.0@, e.1@), pretty, depth as nat));
    }
}

/// Appends the entries from position `i` on, each preceded by a comma.
#[verifier::rlimit(50)]
fn push_entries_rest(out: &mut String, f: &Features, i: usize, pretty: bool, depth: usize)
    requires
        i <= f@.entries.len(),
        depth <= 4,
    ensures
        final(out)@ == old(out)@ + enc_entries_rest(
            f@.entries.skip(i as int),
            pretty,
            depth as nat,
        ),
    decreases f@.entries.len() - i,
{
    if i == f.len() {
        proof {
            assert(old(out)@ + enc_entries_rest(f@.entries.skip(i as int), pretty, depth as nat)
                =~= old(out)@);
        }
        return ;
    }
    push_char(out, ',');
    push_nl(out, pretty, depth + 1);
    push_entry(out, f.entry(i), pretty, depth + 1);
    push_entries_rest(out, f, i + 1, pretty, depth);
    proof {
        assert(f@.entries.skip(i as int).drop_first() =~= f@.entries.skip(i + 1));
        assert(out@ =~= old(out)@ + enc_entries_rest(
            f@.entries.skip(i as int),
            pretty,
            depth as nat,
        ));
    }
}

/// Appends the whole name-to-faces mapping.
#[verifier::rlimit(100)]
fn push_entries(out: &mut String, f: &Features, pretty: bool, depth: usize)
    requires
        depth <= 4,
    ensures
        final(out)@ == old(out)@ + enc_entries(f@.entries, pretty, depth as nat),
{
    if f.len() == 0 {
        push_char(out, '{');
        push_char(out, '}');
        proof {
            assert(old(out)@.push('{').push('}') =~= old(out)@ + enc_entries(
                f@.entries,
                pretty,
                depth as nat,
            ));
        }
        return ;
    }
    push_char(out, '{');
    push_nl(out, pretty, depth + 1);
    push_entry(out, f.entry(0), pretty, depth + 1);
    proof {
        assert(f@.entries.skip(1) =~= f@.entries.drop_first());
    }
    push_entries_rest(out, f, 1, pretty, depth);
    push_nl(out, pretty, depth);
    push_char(out, '}');
    proof {
        assert(out@ =~= old(out)@ + enc_entries(f@.entries, pretty, depth as nat));
    }
}

/// Encodes a feature store as one document, compact or pretty-printed.
#[verifier::rlimit(50)]
pub fn encode_features(f: &Features, pretty: bool) -> (r: String)
    ensures
        r@ == enc_features(f@, pretty),
{
    let mut out = String::new();
    push_char(&mut out, '{');
    push_nl(&mut out, pretty, 1);
    push_string(&mut out, "basedir");
    push_char(&mut out, ':');
    if pretty {
        push_char(&mut out, ' ');
    }
    push_string(&mut out, f.basedir().as_str());
    push_char(&mut out, ',');
    push_nl(&mut out, pretty, 1);
    push_string(&mut out, "features");
    push_char(&mut out, ':');
    if pretty {
        push_char(&mut out, ' ');
    }
    push_entries(&mut out, f, pretty, 1);
    push_nl(&mut out, pretty, 0);
    push_char(&mut out, '}');
    proof {
        reveal_strlit("basedir");
        reveal_strlit("features");
        assert("basedir"@ =~= lit_basedir());
        assert("features"@ =~= lit_features());
        assert(out@ =~= enc_features(f@, pretty));
    }
    out
}

} // verus!
