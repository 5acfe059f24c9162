//! The feature store's text form round-trips: decoding an encoded store
//! yields the store itself, in the compact form and in the pretty-printed
//! form alike.
//!
//! Each lemma inverts one production of the encoder under its parser; the
//! closing theorem chains them over a whole document.

use vstd::prelude::*;

use crate::codec::digit_char;
use crate::codec::enc_faces;
use crate::codec::enc_faces_rest;
use crate::codec::enc_entries;
use crate::codec::enc_entries_rest;
use crate::codec::enc_entry;
use crate::codec::enc_face;
use crate::codec::enc_field;
use crate::codec::enc_features;
use crate::codec::enc_int;
use crate::codec::enc_nat;
use crate::codec::enc_point;
use crate::codec::enc_points;
use crate::codec::enc_points_rest;
use crate::codec::enc_rect;
use crate::codec::enc_str_body;
use crate::codec::enc_string;
use crate::codec::esc_char;
use crate::codec::hex_char;
use crate::codec::is_ws;
use crate::codec::lit_basedir;
use crate::codec::lit_bottom;
use crate::codec::lit_features;
use crate::codec::lit_left;
use crate::codec::lit_right;
use crate::codec::lit_top;
use crate::codec::nl;
use crate::codec::spaces;
use crate::decode::digits_val;
use crate::decode::esc_short;
use crate::decode::hex_val;
use crate::decode::insert_all;
use crate::decode::is_digit;
use crate::decode::parse_entries;
use crate::decode::parse_entries_rest;
use crate::decode::parse_entry;
use crate::decode::parse_face;
use crate::decode::parse_faces;
use crate::decode::parse_faces_rest;
use crate::decode::parse_features;
use crate::decode::parse_int;
use crate::decode::parse_key;
use crate::decode::parse_nat;
use crate::decode::parse_point;
use crate::decode::parse_points;
use crate::decode::parse_points_rest;
use crate::decode::parse_rect;
use crate::decode::parse_rect_field;
use crate::decode::parse_str_body;
use crate::decode::parse_string;
use crate::decode::skip_ws;
use crate::decode::spec_decode;
use crate::decode::tok;
use crate::features::entries_sorted;
use crate::features::insert_entry;
use crate::features::EntryV;
use crate::features::FeaturesV;
use crate::landmarks::FaceV;
use crate::landmarks::Rect;
use crate::text::lemma_lex_trichotomy;
use crate::text::lex_lt;

verus! {

broadcast use {vstd::utf8::char_u32_cast, vstd::utf8::char_is_scalar};

/// Every character is whitespace.
pub open spec fn all_ws(w: Seq<char>) -> bool {
    forall|i: int| 0 <= i < w.len() ==> is_ws(#[trigger] w[i])
}

/// Indentation consists of whitespace only.
proof fn lemma_spaces_ws(n: nat)
    ensures
        all_ws(spaces(n)),
        spaces(n).len() == n,
    decreases n,
{
    if n > 0 {
        lemma_spaces_ws((n - 1) as nat);
    }
}

/// A line break with indentation consists of whitespace only.
proof fn lemma_nl_ws(pretty: bool, depth: nat)
    ensures
        all_ws(nl(pretty, depth)),
{
    lemma_spaces_ws(2 * depth);
}

/// Leading whitespace is skipped down to the first real character.
proof fn lemma_skip_ws_concat(w: Seq<char>, s: Seq<char>)
    requires
        all_ws(w),
        s.len() == 0 || !is_ws(s[0]),
    ensures
        skip_ws(w + s) == s,
    decreases w.len(),
{
    if w.len() == 0 {
        assert(w + s =~= s);
        if s.len() > 0 {
            assert(skip_ws(s) == s);
        }
    } else {
        assert((w + s).drop_first() =~= w.drop_first() + s);
        lemma_skip_ws_concat(w.drop_first(), s);
    }
}

/// A token preceded by whitespace is read and consumed exactly.
proof fn lemma_tok_at(w: Seq<char>, c: char, rest: Seq<char>)
    requires
        all_ws(w),
        !is_ws(c),
    ensures
        tok(w + (seq![c] + rest), c) == Some(rest),
{
    lemma_skip_ws_concat(w, seq![c] + rest);
    assert((seq![c] + rest).drop_first() =~= rest);
}

/// A token with no whitespace before it is read and consumed exactly.
proof fn lemma_tok_here(c: char, rest: Seq<char>)
    requires
        !is_ws(c),
    ensures
        tok(seq![c] + rest, c) == Some(rest),
{
    lemma_tok_at(Seq::empty(), c, rest);
    assert(Seq::<char>::empty() + (seq![c] + rest) =~= seq![c] + rest);
}

/// The decimal encoding of a number consists of digits, starts with a
/// nonzero digit unless the number is zero, and denotes the number.
proof fn lemma_enc_nat_facts(n: nat)
    ensures
        enc_nat(n).len() >= 1,
        forall|i: int| 0 <= i < enc_nat(n).len() ==> is_digit(#[trigger] enc_nat(n)[i]),
        n > 0 ==> enc_nat(n)[0] != '0',
        n == 0 ==> enc_nat(n) == seq!['0'],
        digits_val(enc_nat(n)) == n,
    decreases n,
{
    if n < 10 {
        assert(digits_val(enc_nat(n).drop_last()) == 0);
        assert(enc_nat(n).last() == digit_char(n as int));
    } else {
        lemma_enc_nat_facts(n / 10);
        let e = enc_nat(n / 10);
        let d = digit_char((n % 10) as int);
        assert(enc_nat(n) == e.push(d));
        assert forall|i: int| 0 <= i < enc_nat(n).len() implies is_digit(
            #[trigger] enc_nat(n)[i],
        ) by {
            if i < e.len() {
                assert(e.push(d)[i] == e[i]);
            } else {
                assert(e.push(d)[i] == d);
            }
        }
        assert(enc_nat(n)[0] == e[0]);
        assert(enc_nat(n).drop_last() =~= e);
        assert(digits_val(enc_nat(n)) == (n / 10) * 10 + (n % 10));
    }
}

/// The digits of an encoded number followed by a non-digit parse back to
/// the number.
proof fn lemma_parse_nat_enc(n: nat, tail: Seq<char>)
    requires
        tail.len() == 0 || !is_digit(tail[0]),
    ensures
        parse_nat(enc_nat(n) + tail) == Some((n as int, tail)),
{
    lemma_enc_nat_facts(n);
    let e = enc_nat(n);
    let s = e + tail;
    assert forall|m: int| 0 <= m < e.len() implies is_digit(#[trigger] s[m]) by {
        assert(s[m] == e[m]);
    }
    crate::decode::lemma_digit_count_range(s, e.len() as int);
    assert(s[0] == e[0]);
    if n == 0 {
        assert(e.len() == 1);
    } else {
        assert(e[0] != '0');
    }
    assert(s.take(e.len() as int) =~= e);
    assert(s.skip(e.len() as int) =~= tail);
}

/// An encoded integer preceded by whitespace and followed by a non-digit
/// parses back to the integer.
proof fn lemma_parse_int_enc(v: i64, w: Seq<char>, tail: Seq<char>)
    requires
        all_ws(w),
        tail.len() == 0 || !is_digit(tail[0]),
    ensures
        parse_int(w + (enc_int(v as int) + tail)) == Some((v, tail)),
{
    let e = enc_int(v as int);
    if v < 0 {
        let m = (-(v as int)) as nat;
        lemma_enc_nat_facts(m);
        assert(e == seq!['-'] + enc_nat(m));
        assert(e[0] == '-');
        assert((e + tail)[0] == '-');
        lemma_skip_ws_concat(w, e + tail);
        let t = e + tail;
        assert(t.drop_first() =~= enc_nat(m) + tail);
        lemma_parse_nat_enc(m, tail);
    } else {
        let m = v as nat;
        lemma_enc_nat_facts(m);
        assert(e == enc_nat(m));
        assert((e + tail)[0] == e[0]);
        assert(is_digit(e[0]));
        lemma_skip_ws_concat(w, e + tail);
        assert((e + tail)[0] != '-');
        assert(e + tail =~= enc_nat(m) + tail);
        lemma_parse_nat_enc(m, tail);
    }
}

/// Hexadecimal digits written by the encoder read back to their value.
proof fn lemma_hex_roundtrip(d: int)
    requires
        0 <= d < 16,
    ensures
        hex_val(hex_char(d)) == d,
{
}

/// An escaped string body followed by its closing quote parses back to the
/// original characters.
proof fn lemma_parse_str_body_enc(str: Seq<char>, tail: Seq<char>)
    ensures
        parse_str_body(enc_str_body(str) + (seq!['"'] + tail)) == Some((str, tail)),
    decreases str.len(),
{
    let s = enc_str_body(str) + (seq!['"'] + tail);
    if str.len() == 0 {
        assert(s =~= seq!['"'] + tail);
        assert(s[0] == '"');
        assert(s.drop_first() =~= tail);
    } else {
        let c = str[0];
        let e = esc_char(c);
        lemma_parse_str_body_enc(str.drop_first(), tail);
        let srest = enc_str_body(str.drop_first()) + (seq!['"'] + tail);
        assert(s =~= e + srest);
        if c == '"' {
            assert(s[0] == '\\');
            assert(s[1] == '"');
            assert(s.len() >= 2);
            assert(esc_short(s[1]) == Some('"'));
            assert(s.skip(2) =~= srest);
            assert(seq![c] + str.drop_first() =~= str);
        } else if c == '\\' {
            assert(s[0] == '\\');
            assert(s[1] == '\\');
            assert(esc_short(s[1]) == Some('\\'));
            assert(s.skip(2) =~= srest);
            assert(seq![c] + str.drop_first() =~= str);
        } else if (c as u32) < 0x20 {
            let u = c as u32;
            assert(s[0] == '\\');
            assert(s[1] == 'u');
            assert(s[2] == '0');
            assert(s[3] == '0');
            assert(s[4] == hex_char(u as int / 16));
            assert(s[5] == hex_char(u as int % 16));
            assert(s.len() >= 6);
            lemma_hex_roundtrip(u as int / 16);
            lemma_hex_roundtrip(u as int % 16);
            assert(hex_val(s[2]) == 0);
            assert(hex_val(s[3]) == 0);
            let h = hex_val(s[2]) * 4096 + hex_val(s[3]) * 256 + hex_val(s[4]) * 16 + hex_val(
                s[5],
            );
            assert(h == u);
            assert(s.skip(6) =~= srest);
            vstd::utf8::char_u32_cast(c, u);
            assert((h as char) == c);
            assert(seq![c] + str.drop_first() =~= str);
        } else {
            assert(e =~= seq![c]);
            assert(s[0] == c);
            assert(s.drop_first() =~= srest);
            assert(seq![c] + str.drop_first() =~= str);
        }
    }
}

/// An encoded string preceded by whitespace parses back to its characters.
proof fn lemma_parse_string_enc(str: Seq<char>, w: Seq<char>, tail: Seq<char>)
    requires
        all_ws(w),
    ensures
        parse_string(w + (enc_string(str) + tail)) == Some((str, tail)),
{
    let body = enc_str_body(str);
    assert(enc_string(str) + tail =~= seq!['"'] + (body + (seq!['"'] + tail)));
    lemma_tok_at(w, '"', body + (seq!['"'] + tail));
    assert(w + (enc_string(str) + tail) =~= w + (seq!['"'] + (body + (seq!['"'] + tail))));
    lemma_parse_str_body_enc(str, tail);
}

/// An encoded key parses back and matches itself.
proof fn lemma_parse_key_enc(lit: Seq<char>, w: Seq<char>, tail: Seq<char>)
    requires
        all_ws(w),
    ensures
        parse_key(w + (enc_string(lit) + tail), lit) == Some(tail),
{
    lemma_parse_string_enc(lit, w, tail);
}

/// One bounding-box field written by the encoder parses back to its value.
proof fn lemma_parse_rect_field_enc(lit: Seq<char>, v: i64, tail: Seq<char>)
    requires
        tail.len() == 0 || !is_digit(tail[0]),
    ensures
        parse_rect_field(enc_field(lit, v as int) + tail, lit) == Some((v, tail)),
{
    reveal(enc_field);
    let s = enc_field(lit, v as int) + tail;
    assert(s =~= enc_string(lit) + (seq![':'] + (enc_int(v as int) + tail)));
    lemma_parse_key_enc(lit, Seq::empty(), seq![':'] + (enc_int(v as int) + tail));
    assert(Seq::<char>::empty() + (enc_string(lit) + (seq![':'] + (enc_int(v as int) + tail)))
        =~= s);
    lemma_tok_here(':', enc_int(v as int) + tail);
    lemma_parse_int_enc(v, Seq::empty(), tail);
    assert(Seq::<char>::empty() + (enc_int(v as int) + tail) =~= enc_int(v as int) + tail);
}

/// An encoded bounding box preceded by whitespace parses back to itself.
#[verifier::rlimit(100)]
proof fn lemma_parse_rect_enc(r: Rect, w: Seq<char>, tail: Seq<char>)
    requires
        all_ws(w),
    ensures
        parse_rect(w + (enc_rect(r) + tail)) == Some((r, tail)),
{
    reveal(parse_rect);
    reveal(enc_rect);
    let t9 = seq!['}'] + tail;
    let f4 = enc_field(lit_bottom(), r.bottom as int) + t9;
    let t7 = seq![','] + f4;
    let f3 = enc_field(lit_right(), r.right as int) + t7;
    let t5 = seq![','] + f3;
    let f2 = enc_field(lit_top(), r.top as int) + t5;
    let t3 = seq![','] + f2;
    let f1 = enc_field(lit_left(), r.left as int) + t3;
    let s = w + (enc_rect(r) + tail);
    assert(s =~= w + (seq!['{'] + f1));
    lemma_tok_at(w, '{', f1);
    assert(f1 =~= enc_field(lit_left(), r.left as int) + t3);
    lemma_parse_rect_field_enc(lit_left(), r.left, t3);
    lemma_tok_here(',', f2);
    lemma_parse_rect_field_enc(lit_top(), r.top, t5);
    lemma_tok_here(',', f3);
    lemma_parse_rect_field_enc(lit_right(), r.right, t7);
    lemma_tok_here(',', f4);
    lemma_parse_rect_field_enc(lit_bottom(), r.bottom, t9);
    lemma_tok_here('}', tail);
}

/// An encoded landmark point preceded by whitespace parses back to itself.
proof fn lemma_parse_point_enc(p: (i64, i64), w: Seq<char>, tail: Seq<char>)
    requires
        all_ws(w),
    ensures
        parse_point(w + (enc_point(p) + tail)) == Some((p, tail)),
{
    let t3 = seq![']'] + tail;
    let i2 = enc_int(p.1 as int) + t3;
    let t1 = seq![','] + i2;
    let i1 = enc_int(p.0 as int) + t1;
    let s = w + (enc_point(p) + tail);
    assert(s =~= w + (seq!['['] + i1));
    lemma_tok_at(w, '[', i1);
    lemma_parse_int_enc(p.0, Seq::empty(), t1);
    assert(Seq::<char>::empty() + (enc_int(p.0 as int) + t1) =~= i1);
    lemma_tok_here(',', i2);
    lemma_parse_int_enc(p.1, Seq::empty(), t3);
    assert(Seq::<char>::empty() + (enc_int(p.1 as int) + t3) =~= i2);
    lemma_tok_here(']', tail);
}

/// The encoded points after the first parse back, up to the closing
/// bracket.
proof fn lemma_parse_points_rest_enc(ps: Seq<(i64, i64)>, tail: Seq<char>)
    ensures
        parse_points_rest(enc_points_rest(ps) + (seq![']'] + tail)) == Some((ps, tail)),
    decreases ps.len(),
{
    let s = enc_points_rest(ps) + (seq![']'] + tail);
    if ps.len() == 0 {
        assert(s =~= seq![']'] + tail);
        lemma_tok_here(']', tail);
        assert(ps =~= Seq::<(i64, i64)>::empty());
    } else {
        lemma_parse_points_rest_enc(ps.drop_first(), tail);
        let r = enc_points_rest(ps.drop_first()) + (seq![']'] + tail);
        let m = enc_point(ps[0]) + r;
        assert(s =~= seq![','] + m);
        assert(s[0] == ',');
        assert(skip_ws(s) == s);
        lemma_tok_here(',', m);
        lemma_parse_point_enc(ps[0], Seq::empty(), r);
        assert(Seq::<char>::empty() + (enc_point(ps[0]) + r) =~= m);
        assert(r.len() < s.len());
        assert(seq![ps[0]] + ps.drop_first() =~= ps);
    }
}

/// An encoded point list preceded by whitespace parses back to itself.
proof fn lemma_parse_points_enc(ps: Seq<(i64, i64)>, w: Seq<char>, tail: Seq<char>)
    requires
        all_ws(w),
    ensures
        parse_points(w + (enc_points(ps) + tail)) == Some((ps, tail)),
{
    let s = w + (enc_points(ps) + tail);
    if ps.len() == 0 {
        assert(s =~= w + (seq!['['] + (seq![']'] + tail)));
        lemma_tok_at(w, '[', seq![']'] + tail);
        lemma_tok_here(']', tail);
        assert(ps =~= Seq::<(i64, i64)>::empty());
    } else {
        let r = enc_points_rest(ps.drop_first()) + (seq![']'] + tail);
        let m = enc_point(ps[0]) + r;
        assert(s =~= w + (seq!['['] + m));
        lemma_tok_at(w, '[', m);
        assert(m[0] == '[');
        assert(skip_ws(m) == m);
        assert(tok(m, ']') is None);
        lemma_parse_point_enc(ps[0], Seq::empty(), r);
        assert(Seq::<char>::empty() + (enc_point(ps[0]) + r) =~= m);
        lemma_parse_points_rest_enc(ps.drop_first(), tail);
        assert(seq![ps[0]] + ps.drop_first() =~= ps);
    }
}

/// An encoded face preceded by whitespace parses back to itself.
proof fn lemma_parse_face_enc(f: FaceV, w: Seq<char>, tail: Seq<char>)
    requires
        all_ws(w),
    ensures
        parse_face(w + (enc_face(f) + tail)) == Some((f, tail)),
{
    reveal(parse_face);
    reveal(enc_face);
    let t3 = seq![']'] + tail;
    let pts = enc_points(f.points) + t3;
    let t1 = seq![','] + pts;
    let rct = enc_rect(f.rect) + t1;
    let s = w + (enc_face(f) + tail);
    assert(s =~= w + (seq!['['] + rct));
    lemma_tok_at(w, '[', rct);
    lemma_parse_rect_enc(f.rect, Seq::empty(), t1);
    assert(Seq::<char>::empty() + (enc_rect(f.rect) + t1) =~= rct);
    lemma_tok_here(',', pts);
    lemma_parse_points_enc(f.points, Seq::empty(), t3);
    assert(Seq::<char>::empty() + (enc_points(f.points) + t3) =~= pts);
    lemma_tok_here(']', tail);
    assert((FaceV { rect: f.rect, points: f.points }) == f);
}

/// The head character of an encoded face is its opening bracket.
proof fn lemma_enc_face_head(f: FaceV)
    ensures
        enc_face(f).len() > 0,
        enc_face(f)[0] == '[',
{
    reveal(enc_face);
}

/// The encoded faces after the first parse back, up to the closing
/// bracket.
proof fn lemma_parse_faces_rest_enc(fs: Seq<FaceV>, pretty: bool, depth: nat, tail: Seq<char>)
    ensures
        parse_faces_rest(enc_faces_rest(fs, pretty, depth) + (nl(pretty, depth) + (seq![']']
            + tail))) == Some((fs, tail)),
    decreases fs.len(),
{
    let close = nl(pretty, depth) + (seq![']'] + tail);
    let s = enc_faces_rest(fs, pretty, depth) + close;
    lemma_nl_ws(pretty, depth);
    if fs.len() == 0 {
        assert(s =~= nl(pretty, depth) + (seq![']'] + tail));
        lemma_tok_at(nl(pretty, depth), ']', tail);
        assert(fs =~= Seq::<FaceV>::empty());
    } else {
        lemma_nl_ws(pretty, (depth + 1) as nat);
        lemma_parse_faces_rest_enc(fs.drop_first(), pretty, depth, tail);
        let r = enc_faces_rest(fs.drop_first(), pretty, depth) + close;
        let m = nl(pretty, (depth + 1) as nat) + (enc_face(fs[0]) + r);
        assert(s =~= seq![','] + m);
        assert(s[0] == ',');
        assert(skip_ws(s) == s);
        lemma_tok_here(',', m);
        lemma_parse_face_enc(fs[0], nl(pretty, (depth + 1) as nat), r);
        assert(r.len() < s.len()) by {
            lemma_enc_face_head(fs[0]);
        }
        assert(seq![fs[0]] + fs.drop_first() =~= fs);
    }
}

/// An encoded face list preceded by whitespace parses back to itself.
proof fn lemma_parse_faces_enc(fs: Seq<FaceV>, pretty: bool, depth: nat, w: Seq<char>, tail: Seq<
    char,
>)
    requires
        all_ws(w),
    ensures
        parse_faces(w + (enc_faces(fs, pretty, depth) + tail)) == Some((fs, tail)),
{
    let s = w + (enc_faces(fs, pretty, depth) + tail);
    if fs.len() == 0 {
        assert(s =~= w + (seq!['['] + (seq![']'] + tail)));
        lemma_tok_at(w, '[', seq![']'] + tail);
        lemma_tok_here(']', tail);
        assert(fs =~= Seq::<FaceV>::empty());
    } else {
        lemma_nl_ws(pretty, (depth + 1) as nat);
        let close = nl(pretty, depth) + (seq![']'] + tail);
        let r = enc_faces_rest(fs.drop_first(), pretty, depth) + close;
        let m = nl(pretty, (depth + 1) as nat) + (enc_face(fs[0]) + r);
        assert(s =~= w + (seq!['['] + m));
        lemma_tok_at(w, '[', m);
        lemma_enc_face_head(fs[0]);
        assert(skip_ws(m) == enc_face(fs[0]) + r) by {
            lemma_skip_ws_concat(nl(pretty, (depth + 1) as nat), enc_face(fs[0]) + r);
        }
        assert((enc_face(fs[0]) + r)[0] == '[');
        assert(tok(m, ']') is None);
        lemma_parse_face_enc(fs[0], nl(pretty, (depth + 1) as nat), r);
        lemma_parse_faces_rest_enc(fs.drop_first(), pretty, depth, tail);
        assert(seq![fs[0]] + fs.drop_first() =~= fs);
    }
}

/// The head character of an encoded entry is the quote of its key.
proof fn lemma_enc_entry_head(e: EntryV, pretty: bool, depth: nat)
    ensures
        enc_entry(e, pretty, depth).len() > 0,
        enc_entry(e, pretty, depth)[0] == '"',
{
    reveal(enc_entry);
}

/// An encoded entry preceded by whitespace parses back to itself.
proof fn lemma_parse_entry_enc(e: EntryV, pretty: bool, depth: nat, w: Seq<char>, tail: Seq<char>)
    requires
        all_ws(w),
    ensures
        parse_entry(w + (enc_entry(e, pretty, depth) + tail)) == Some((e, tail)),
{
    reveal(enc_entry);
    let s = w + (enc_entry(e, pretty, depth) + tail);
    let fcs = enc_faces(e.1, pretty, depth) + tail;
    if pretty {
        let m = seq![' '] + fcs;
        assert(s =~= w + (enc_string(e.0) + (seq![':'] + m)));
        lemma_parse_string_enc(e.0, w, seq![':'] + m);
        lemma_tok_here(':', m);
        assert(all_ws(seq![' ']));
        lemma_parse_faces_enc(e.1, pretty, depth, seq![' '], tail);
        assert(seq![' '] + (enc_faces(e.1, pretty, depth) + tail) =~= m);
    } else {
        assert(s =~= w + (enc_string(e.0) + (seq![':'] + fcs)));
        lemma_parse_string_enc(e.0, w, seq![':'] + fcs);
        lemma_tok_here(':', fcs);
        assert(all_ws(Seq::<char>::empty()));
        lemma_parse_faces_enc(e.1, pretty, depth, Seq::empty(), tail);
        assert(Seq::<char>::empty() + (enc_faces(e.1, pretty, depth) + tail) =~= fcs);
    }
    assert(((e.0, e.1), tail) == ((e, tail)));
}

/// The encoded entries after the first parse back, up to the closing brace.
proof fn lemma_parse_entries_rest_enc(es: Seq<EntryV>, pretty: bool, depth: nat, tail: Seq<char>)
    ensures
        parse_entries_rest(enc_entries_rest(es, pretty, depth) + (nl(pretty, depth) + (seq!['}']
            + tail))) == Some((es, tail)),
    decreases es.len(),
{
    let close = nl(pretty, depth) + (seq!['}'] + tail);
    let s = enc_entries_rest(es, pretty, depth) + close;
    lemma_nl_ws(pretty, depth);
    if es.len() == 0 {
        assert(s =~= nl(pretty, depth) + (seq!['}'] + tail));
        lemma_tok_at(nl(pretty, depth), '}', tail);
        assert(es =~= Seq::<EntryV>::empty());
    } else {
        lemma_nl_ws(pretty, (depth + 1) as nat);
        lemma_parse_entries_rest_enc(es.drop_first(), pretty, depth, tail);
        let r = enc_entries_rest(es.drop_first(), pretty, depth) + close;
        let m = nl(pretty, (depth + 1) as nat) + (enc_entry(es[0], pretty, (depth + 1) as nat)
            + r);
        assert(s =~= seq![','] + m);
        assert(s[0] == ',');
        assert(skip_ws(s) == s);
        lemma_tok_here(',', m);
        lemma_parse_entry_enc(es[0], pretty, (depth + 1) as nat, nl(pretty, (depth + 1) as nat), r);
        assert(r.len() < s.len()) by {
            lemma_enc_entry_head(es[0], pretty, (depth + 1) as nat);
        }
        assert(seq![es[0]] + es.drop_first() =~= es);
    }
}

/// An encoded mapping preceded by whitespace parses back to itself.
proof fn lemma_parse_entries_enc(
    es: Seq<EntryV>,
    pretty: bool,
    depth: nat,
    w: Seq<char>,
    tail: Seq<char>,
)
    requires
        all_ws(w),
    ensures
        parse_entries(w + (enc_entries(es, pretty, depth) + tail)) == Some((es, tail)),
{
    let s = w + (enc_entries(es, pretty, depth) + tail);
    if es.len() == 0 {
        assert(s =~= w + (seq!['{'] + (seq!['}'] + tail)));
        lemma_tok_at(w, '{', seq!['}'] + tail);
        lemma_tok_here('}', tail);
        assert(es =~= Seq::<EntryV>::empty());
    } else {
        lemma_nl_ws(pretty, (depth + 1) as nat);
        let close = nl(pretty, depth) + (seq!['}'] + tail);
        let r = enc_entries_rest(es.drop_first(), pretty, depth) + close;
        let m = nl(pretty, (depth + 1) as nat) + (enc_entry(es[0], pretty, (depth + 1) as nat)
            + r);
        assert(s =~= w + (seq!['{'] + m));
        lemma_tok_at(w, '{', m);
        lemma_enc_entry_head(es[0], pretty, (depth + 1) as nat);
        assert(skip_ws(m) == enc_entry(es[0], pretty, (depth + 1) as nat) + r) by {
            lemma_skip_ws_concat(
                nl(pretty, (depth + 1) as nat),
                enc_entry(es[0], pretty, (depth + 1) as nat) + r,
            );
        }
        assert((enc_entry(es[0], pretty, (depth + 1) as nat) + r)[0] == '"');
        assert(tok(m, '}') is None);
        lemma_parse_entry_enc(es[0], pretty, (depth + 1) as nat, nl(pretty, (depth + 1) as nat), r);
        lemma_parse_entries_rest_enc(es.drop_first(), pretty, depth, tail);
        assert(seq![es[0]] + es.drop_first() =~= es);
    }
}

/// An encoded document parses back whole: the base directory, the entries in
/// their encoded order, and nothing after it.
#[verifier::rlimit(100)]
proof fn lemma_parse_features_enc(f: FeaturesV, pretty: bool)
    ensures
        parse_features(enc_features(f, pretty)) == Some(
            ((f.basedir, f.entries), Seq::<char>::empty()),
        ),
{
    reveal(parse_features);
    lemma_nl_ws(pretty, 1);
    lemma_nl_ws(pretty, 0);
    let zz = nl(pretty, 0) + (seq!['}'] + Seq::<char>::empty());
    let r8 = enc_entries(f.entries, pretty, 1) + zz;
    let r7 = if pretty {
        seq![':'] + (seq![' '] + r8)
    } else {
        seq![':'] + r8
    };
    let r6 = enc_string(lit_features()) + r7;
    let r5 = nl(pretty, 1) + r6;
    let r4 = seq![','] + r5;
    let r3 = enc_string(f.basedir) + r4;
    let r2 = if pretty {
        seq![':'] + (seq![' '] + r3)
    } else {
        seq![':'] + r3
    };
    let r1 = enc_string(lit_basedir()) + r2;
    let r0 = nl(pretty, 1) + r1;
    let s = enc_features(f, pretty);
    assert(s =~= seq!['{'] + r0);
    lemma_tok_here('{', r0);
    lemma_parse_key_enc(lit_basedir(), nl(pretty, 1), r2);
    assert(nl(pretty, 1) + (enc_string(lit_basedir()) + r2) =~= r0);
    assert(all_ws(seq![' ']));
    if pretty {
        lemma_tok_here(':', seq![' '] + r3);
        lemma_parse_string_enc(f.basedir, seq![' '], r4);
        assert(seq![' '] + (enc_string(f.basedir) + r4) =~= seq![' '] + r3);
    } else {
        lemma_tok_here(':', r3);
        lemma_parse_string_enc(f.basedir, Seq::empty(), r4);
        assert(Seq::<char>::empty() + (enc_string(f.basedir) + r4) =~= r3);
    }
    lemma_tok_here(',', r5);
    lemma_parse_key_enc(lit_features(), nl(pretty, 1), r7);
    assert(nl(pretty, 1) + (enc_string(lit_features()) + r7) =~= r5);
    if pretty {
        lemma_tok_here(':', seq![' '] + r8);
        lemma_parse_entries_enc(f.entries, pretty, 1, seq![' '], zz);
        assert(seq![' '] + (enc_entries(f.entries, pretty, 1) + zz) =~= seq![' '] + r8);
    } else {
        lemma_tok_here(':', r8);
        lemma_parse_entries_enc(f.entries, pretty, 1, Seq::empty(), zz);
        assert(Seq::<char>::empty() + (enc_entries(f.entries, pretty, 1) + zz) =~= r8);
    }
    lemma_tok_at(nl(pretty, 0), '}', Seq::empty());
}

/// Inserting a name larger than every stored one appends it.
proof fn lemma_insert_entry_append(entries: Seq<EntryV>, name: Seq<char>, faces: Seq<FaceV>)
    requires
        forall|i: int| 0 <= i < entries.len() ==> lex_lt(#[trigger] entries[i].0, name),
    ensures
        insert_entry(entries, name, faces) == entries.push((name, faces)),
    decreases entries.len(),
{
    if entries.len() == 0 {
        assert(seq![(name, faces)] =~= entries.push((name, faces)));
    } else {
        lemma_lex_trichotomy(name, entries[0].0);
        let tail = entries.drop_first();
        assert forall|i: int| 0 <= i < tail.len() implies lex_lt(#[trigger] tail[i].0, name) by {
            assert(tail[i] == entries[i + 1]);
        }
        lemma_insert_entry_append(tail, name, faces);
        assert(seq![entries[0]] + tail.push((name, faces)) =~= entries.push((name, faces)));
    }
}

/// Re-inserting sorted entries in order reproduces them exactly.
proof fn lemma_insert_all_sorted(es: Seq<EntryV>)
    requires
        entries_sorted(es),
    ensures
        insert_all(es) == es,
    decreases es.len(),
{
    if es.len() > 0 {
        let prefix = es.drop_last();
        assert forall|i: int, j: int| 0 <= i < j < prefix.len() implies lex_lt(
            prefix[i].0,
            prefix[j].0,
        ) by {
            assert(prefix[i] == es[i]);
            assert(prefix[j] == es[j]);
        }
        lemma_insert_all_sorted(prefix);
        assert forall|i: int| 0 <= i < prefix.len() implies lex_lt(
            #[trigger] prefix[i].0,
            es.last().0,
        ) by {
            assert(prefix[i] == es[i]);
        }
        lemma_insert_entry_append(prefix, es.last().0, es.last().1);
        assert(prefix.push(es.last()) =~= es);
        assert(insert_all(es) == insert_entry(insert_all(prefix), es.last().0, es.last().1));
    }
}

/// The feature store's text form round-trips: decoding an encoded store
/// yields exactly the store, whether it was written compactly or
/// pretty-printed.
pub proof fn lemma_encode_decode(f: FeaturesV, pretty: bool)
    requires
        entries_sorted(f.entries),
    ensures
        spec_decode(enc_features(f, pretty)) == Some(f),
{
    lemma_parse_features_enc(f, pretty);
    lemma_insert_all_sorted(f.entries);
    assert(skip_ws(Seq::<char>::empty()).len() == 0);
    assert((FeaturesV { basedir: f.basedir, entries: insert_all(f.entries) }) =~= f);
}

} // verus!
