use vstd::prelude::*;
use vstd::string::StrSliceExecFns;

verus! {

use crate::item::{Item, ItemView, views};
use crate::strutil::string_of;

// The persisted form of a list is a JSON array of objects, one per item, with
// the fields `title` (string), `due` (string or null) and `done` (boolean),
// in that order and without whitespace, exactly as the writer lays it out.
// The decoder accepts that canonical form; inside strings it also accepts the
// escape `\/` and any `\u00..` escape of a scalar below 0x100.

pub open spec fn lit_open() -> Seq<char> {
    seq!['{', '"', 't', 'i', 't', 'l', 'e', '"', ':']
}

pub open spec fn lit_due() -> Seq<char> {
    seq![',', '"', 'd', 'u', 'e', '"', ':']
}

pub open spec fn lit_done() -> Seq<char> {
    seq![',', '"', 'd', 'o', 'n', 'e', '"', ':']
}

pub open spec fn lit_null() -> Seq<char> {
    seq!['n', 'u', 'l', 'l']
}

pub open spec fn lit_true() -> Seq<char> {
    seq!['t', 'r', 'u', 'e']
}

pub open spec fn lit_false() -> Seq<char> {
    seq!['f', 'a', 'l', 's', 'e']
}

/// The lowercase hex digit of a value below sixteen.
pub open spec fn hex_digit(n: int) -> char {
    if n == 0 { '0' } else if n == 1 { '1' } else if n == 2 { '2' } else if n == 3 { '3' }
    else if n == 4 { '4' } else if n == 5 { '5' } else if n == 6 { '6' } else if n == 7 { '7' }
    else if n == 8 { '8' } else if n == 9 { '9' } else if n == 10 { 'a' } else if n == 11 { 'b' }
    else if n == 12 { 'c' } else if n == 13 { 'd' } else if n == 14 { 'e' } else { 'f' }
}

pub open spec fn is_hex(c: char) -> bool {
    let u = c as u32;
    (48 <= u && u <= 57) || (97 <= u && u <= 102) || (65 <= u && u <= 70)
}

pub open spec fn hex_val(c: char) -> int {
    let u = c as u32;
    if 48 <= u && u <= 57 {
        u - 48
    } else if 97 <= u && u <= 102 {
        u - 87
    } else {
        u - 55
    }
}

proof fn lemma_hex_digit(n: int)
    requires
        0 <= n < 16,
    ensures
        is_hex(hex_digit(n)),
        hex_val(hex_digit(n)) == n,
{
}

/// The JSON escape of one string character: the short escapes for the quote,
/// the backslash and the common control characters, `\u00..` for the other
/// control characters, and the character itself for everything else.
pub open spec fn esc_char(c: char) -> Seq<char> {
    if c == '"' {
        seq!['\\', '"']
    } else if c == '\\' {
        seq!['\\', '\\']
    } else if c == '\u{8}' {
        seq!['\\', 'b']
    } else if c == '\t' {
        seq!['\\', 't']
    } else if c == '\n' {
        seq!['\\', 'n']
    } else if c == '\u{c}' {
        seq!['\\', 'f']
    } else if c == '\r' {
        seq!['\\', 'r']
    } else if (c as u32) < 0x20 {
        seq!['\\', 'u', '0', '0', hex_digit(c as u32 as int / 16), hex_digit(c as u32 as int % 16)]
    } else {
        seq![c]
    }
}

pub open spec fn esc_seq(s: Seq<char>) -> Seq<char>
    decreases s.len(),
{
    if s.len() == 0 {
        Seq::empty()
    } else {
        esc_char(s.first()) + esc_seq(s.drop_first())
    }
}

/// The encoding of one string value, quotes included.
pub open spec fn enc_string(s: Seq<char>) -> Seq<char> {
    seq!['"'] + esc_seq(s) + seq!['"']
}

/// The encoding of one item object.
pub open spec fn enc_item(iv: ItemView) -> Seq<char> {
    lit_open() + enc_string(iv.title) + lit_due() + (match iv.due {
        Some(d) => enc_string(d),
        None => lit_null(),
    }) + lit_done() + (if iv.done {
        lit_true()
    } else {
        lit_false()
    }) + seq!['}']
}

pub open spec fn enc_rest(items: Seq<ItemView>) -> Seq<char>
    decreases items.len(),
{
    if items.len() == 0 {
        Seq::empty()
    } else {
        seq![','] + enc_item(items.first()) + enc_rest(items.drop_first())
    }
}

pub open spec fn enc_items(items: Seq<ItemView>) -> Seq<char> {
    if items.len() == 0 {
        Seq::empty()
    } else {
        enc_item(items.first()) + enc_rest(items.drop_first())
    }
}

/// The encoding of a whole list: the items' objects, comma separated, in
/// brackets.
pub open spec fn enc_list(items: Seq<ItemView>) -> Seq<char> {
    seq!['['] + enc_items(items) + seq![']']
}

/// What a short escape character stands for.
pub open spec fn unesc(e: char) -> char {
    if e == '"' { '"' } else if e == '\\' { '\\' } else if e == '/' { '/' }
    else if e == 'b' { '\u{8}' } else if e == 'f' { '\u{c}' } else if e == 'n' { '\n' }
    else if e == 'r' { '\r' } else { '\t' }
}

/// Consumes a literal from the front of the input.
pub open spec fn p_lit(s: Seq<char>, lit: Seq<char>) -> Option<Seq<char>> {
    if lit.is_prefix_of(s) {
        Some(s.skip(lit.len() as int))
    } else {
        None
    }
}

/// Parses the body of a string value, after its opening quote, up to and
/// through its closing quote; yields the decoded characters and the rest.
pub open spec fn p_string_body(s: Seq<char>) -> Option<(Seq<char>, Seq<char>)>
    decreases s.len(),
{
    if s.len() == 0 {
        None
    } else if s.first() == '"' {
        Some((Seq::empty(), s.drop_first()))
    } else if s.first() == '\\' {
        if s.len() < 2 {
            None
        } else {
            let e = s[1];
            if e == '"' || e == '\\' || e == '/' || e == 'b' || e == 'f' || e == 'n' || e == 'r'
                || e == 't' {
                match p_string_body(s.skip(2)) {
                    None => None,
                    Some((t, r)) => Some((seq![unesc(e)] + t, r)),
                }
            } else if e == 'u' {
                if s.len() < 6 {
                    None
                } else if is_hex(s[2]) && is_hex(s[3]) && is_hex(s[4]) && is_hex(s[5]) {
                    let v = ((hex_val(s[2]) * 16 + hex_val(s[3])) * 16 + hex_val(s[4])) * 16
                        + hex_val(s[5]);
                    if v < 0x100 {
                        match p_string_body(s.skip(6)) {
                            None => None,
                            Some((t, r)) => Some((seq![(v as u32) as char] + t, r)),
                        }
                    } else {
                        None
                    }
                } else {
                    None
                }
            } else {
                None
            }
        }
    } else {
        match p_string_body(s.drop_first()) {
            None => None,
            Some((t, r)) => Some((seq![s.first()] + t, r)),
        }
    }
}

/// Parses a whole string value, quotes included.
pub open spec fn p_string(s: Seq<char>) -> Option<(Seq<char>, Seq<char>)> {
    if s.len() > 0 && s.first() == '"' {
        p_string_body(s.drop_first())
    } else {
        None
    }
}

/// Parses a due field: `null`, or a string value.
pub open spec fn p_due(s: Seq<char>) -> Option<(Option<Seq<char>>, Seq<char>)> {
    match p_lit(s, lit_null()) {
        Some(r) => Some((None, r)),
        None => match p_string(s) {
            Some((t, r)) => Some((Some(t), r)),
            None => None,
        },
    }
}

/// Parses a done field: `true` or `false`.
pub open spec fn p_bool(s: Seq<char>) -> Option<(bool, Seq<char>)> {
    match p_lit(s, lit_true()) {
        Some(r) => Some((true, r)),
        None => match p_lit(s, lit_false()) {
            Some(r) => Some((false, r)),
            None => None,
        },
    }
}

/// Parses one item object.
pub open spec fn p_item(s: Seq<char>) -> Option<(ItemView, Seq<char>)> {
    match p_lit(s, lit_open()) {
        None => None,
        Some(r1) => match p_string(r1) {
            None => None,
            Some((title, r2)) => match p_lit(r2, lit_due()) {
                None => None,
                Some(r3) => match p_due(r3) {
                    None => None,
                    Some((due, r4)) => match p_lit(r4, lit_done()) {
                        None => None,
                        Some(r5) => match p_bool(r5) {
                            None => None,
                            Some((done, r6)) => match p_lit(r6, seq!['}']) {
                                None => None,
                                Some(r7) => Some((ItemView { title, due, done }, r7)),
                            },
                        },
                    },
                },
            },
        },
    }
}

proof fn lemma_p_string_body_consumes(s: Seq<char>)
    ensures
        p_string_body(s) matches Some((t, r)) ==> r.len() < s.len(),
    decreases s.len(),
{
    if s.len() == 0 {
    } else if s.first() == '"' {
    } else if s.first() == '\\' {
        if s.len() >= 2 {
            lemma_p_string_body_consumes(s.skip(2));
            if s.len() >= 6 {
                lemma_p_string_body_consumes(s.skip(6));
            }
        }
    } else {
        lemma_p_string_body_consumes(s.drop_first());
    }
}

proof fn lemma_p_item_consumes(s: Seq<char>)
    ensures
        p_item(s) matches Some((iv, r)) ==> r.len() < s.len(),
{
    match p_lit(s, lit_open()) {
        None => {},
        Some(r1) => {
            assert(r1.len() + lit_open().len() == s.len());
            match p_string(r1) {
                None => {},
                Some((title, r2)) => {
                    lemma_p_string_body_consumes(r1.drop_first());
                    assert(r2.len() < r1.len());
                    match p_lit(r2, lit_due()) {
                        None => {},
                        Some(r3) => {
                            match p_due(r3) {
                                None => {},
                                Some((due, r4)) => {
                                    if p_lit(r3, lit_null()) is None {
                                        lemma_p_string_body_consumes(r3.drop_first());
                                    }
                                    assert(r4.len() <= r3.len());
                                    match p_lit(r4, lit_done()) {
                                        None => {},
                                        Some(r5) => {
                                            match p_bool(r5) {
                                                None => {},
                                                Some((done, r6)) => {
                                                    assert(r6.len() <= r5.len());
                                                    match p_lit(r6, seq!['}']) {
                                                        None => {},
                                                        Some(r7) => {
                                                            assert(r7.len() < s.len());
                                                        },
                                                    }
                                                },
                                            }
                                        },
                                    }
                                },
                            }
                        },
                    }
                },
            }
        },
    }
}

/// Parses the items of a non-empty array, from after the opening bracket up
/// to and through the closing bracket.
pub open spec fn p_items(s: Seq<char>) -> Option<(Seq<ItemView>, Seq<char>)>
    decreases s.len(),
    via p_items_dec
{
    match p_item(s) {
        None => None,
        Some((iv, r)) => {
            if r.len() > 0 && r.first() == ',' {
                match p_items(r.drop_first()) {
                    None => None,
                    Some((ivs, r2)) => Some((seq![iv] + ivs, r2)),
                }
            } else if r.len() > 0 && r.first() == ']' {
                Some((seq![iv], r.drop_first()))
            } else {
                None
            }
        },
    }
}

#[via_fn]
proof fn p_items_dec(s: Seq<char>) {
    lemma_p_item_consumes(s);
}

/// Parses a whole persisted list; `None` for anything but one complete,
/// canonical array.
pub open spec fn p_list(s: Seq<char>) -> Option<Seq<ItemView>> {
    if s.len() > 0 && s.first() == '[' {
        let r = s.drop_first();
        if r.len() > 0 && r.first() == ']' {
            if r.drop_first().len() == 0 {
                Some(Seq::empty())
            } else {
                None
            }
        } else {
            match p_items(r) {
                Some((ivs, rest)) => if rest.len() == 0 {
                    Some(ivs)
                } else {
                    None
                },
                None => None,
            }
        }
    } else {
        None
    }
}

proof fn lemma_p_lit(lit: Seq<char>, rest: Seq<char>)
    ensures
        p_lit(lit + rest, lit) == Some(rest),
{
    let s = lit + rest;
    assert(s.subrange(0, lit.len() as int) =~= lit);
    assert(lit.is_prefix_of(s));
    assert(s.skip(lit.len() as int) =~= rest);
}

proof fn lemma_esc_rt(t: Seq<char>, rest: Seq<char>)
    ensures
        p_string_body(esc_seq(t) + seq!['"'] + rest) == Some((t, rest)),
    decreases t.len(),
{
    let s = esc_seq(t) + seq!['"'] + rest;
    if t.len() == 0 {
        assert(esc_seq(t) =~= Seq::<char>::empty());
        assert(s =~= seq!['"'] + rest);
        assert(s.first() == '"');
        assert(s.drop_first() =~= rest);
        assert(p_string_body(s) == Some((Seq::<char>::empty(), rest)));
    } else {
        let c = t.first();
        let t2 = t.drop_first();
        lemma_esc_rt(t2, rest);
        let tail = esc_seq(t2) + seq!['"'] + rest;
        assert(esc_seq(t) == esc_char(c) + esc_seq(t2));
        assert(s =~= esc_char(c) + tail);
        if c == '"' || c == '\\' || c == '\u{8}' || c == '\t' || c == '\n' || c == '\u{c}' || c
            == '\r' {
            let e = esc_char(c)[1];
            assert(s[0] == '\\');
            assert(s[1] == e);
            assert(s.len() >= 2);
            assert(unesc(e) == c);
            assert(s.skip(2) =~= tail);
            assert(seq![c] + t2 =~= t);
        } else if (c as u32) < 0x20 {
            let u = c as u32 as int;
            vstd::arithmetic::div_mod::lemma_fundamental_div_mod(u, 16);
            lemma_hex_digit(u / 16);
            lemma_hex_digit(u % 16);
            lemma_hex_digit(0);
            assert(s[0] == '\\');
            assert(s[1] == 'u');
            assert(s[2] == '0');
            assert(s[3] == '0');
            assert(s[4] == hex_digit(u / 16));
            assert(s[5] == hex_digit(u % 16));
            assert(s.len() >= 6);
            let v = ((hex_val(s[2]) * 16 + hex_val(s[3])) * 16 + hex_val(s[4])) * 16 + hex_val(
                s[5],
            );
            assert(v == u);
            assert(0 <= v < 0x100);
            vstd::utf8::char_u32_cast(c, v as u32);
            assert((v as u32) as char == c);
            assert(s.skip(6) =~= tail);
            assert(seq![c] + t2 =~= t);
        } else {
            assert(esc_char(c) =~= seq![c]);
            assert(s.first() == c);
            assert(c != '"' && c != '\\');
            assert(s.drop_first() =~= tail);
            assert(seq![c] + t2 =~= t);
        }
    }
}

proof fn lemma_p_string_rt(t: Seq<char>, rest: Seq<char>)
    ensures
        p_string(enc_string(t) + rest) == Some((t, rest)),
{
    let s = enc_string(t) + rest;
    assert(s.first() == '"');
    assert(s.drop_first() =~= esc_seq(t) + seq!['"'] + rest);
    lemma_esc_rt(t, rest);
}

#[verifier::rlimit(100)]
proof fn lemma_p_item_rt(iv: ItemView, rest: Seq<char>)
    ensures
        p_item(enc_item(iv) + rest) == Some((iv, rest)),
{
    let s = enc_item(iv) + rest;
    let dstr = match iv.due {
        Some(d) => enc_string(d),
        None => lit_null(),
    };
    let bstr = if iv.done {
        lit_true()
    } else {
        lit_false()
    };
    let after1 = enc_string(iv.title) + lit_due() + dstr + lit_done() + bstr + seq!['}'] + rest;
    assert(s =~= lit_open() + after1);
    lemma_p_lit(lit_open(), after1);
    let after2 = lit_due() + dstr + lit_done() + bstr + seq!['}'] + rest;
    assert(after1 =~= enc_string(iv.title) + after2);
    lemma_p_string_rt(iv.title, after2);
    let after3 = dstr + lit_done() + bstr + seq!['}'] + rest;
    assert(after2 =~= lit_due() + after3);
    lemma_p_lit(lit_due(), after3);
    let after4 = lit_done() + bstr + seq!['}'] + rest;
    assert(after3 =~= dstr + after4);
    match iv.due {
        None => {
            lemma_p_lit(lit_null(), after4);
        },
        Some(d) => {
            assert(after3[0] == '"');
            assert(!lit_null().is_prefix_of(after3)) by {
                if lit_null().is_prefix_of(after3) {
                    assert(after3.subrange(0, 4)[0] == after3[0]);
                }
            }
            lemma_p_string_rt(d, after4);
        },
    }
    assert(p_due(after3) == Some((iv.due, after4)));
    let after5 = bstr + seq!['}'] + rest;
    assert(after4 =~= lit_done() + after5);
    lemma_p_lit(lit_done(), after5);
    let after6 = seq!['}'] + rest;
    assert(after5 =~= bstr + after6);
    if iv.done {
        lemma_p_lit(lit_true(), after6);
    } else {
        assert(!lit_true().is_prefix_of(after5)) by {
            if lit_true().is_prefix_of(after5) {
                assert(after5.subrange(0, 4)[0] == after5[0]);
            }
        }
        lemma_p_lit(lit_false(), after6);
    }
    assert(p_bool(after5) == Some((iv.done, after6)));
    lemma_p_lit(seq!['}'], rest);
    assert(p_item(s) == Some((ItemView { title: iv.title, due: iv.due, done: iv.done }, rest)));
    assert(ItemView { title: iv.title, due: iv.due, done: iv.done } == iv);
}

#[verifier::rlimit(100)]
proof fn lemma_p_items_rt(items: Seq<ItemView>, rest: Seq<char>)
    requires
        items.len() > 0,
    ensures
        p_items(enc_items(items) + seq![']'] + rest) == Some((items, rest)),
    decreases items.len(),
{
    let s = enc_items(items) + seq![']'] + rest;
    let iv = items.first();
    let t2 = items.drop_first();
    if t2.len() == 0 {
        assert(enc_rest(t2) =~= Seq::<char>::empty());
        assert(s =~= enc_item(iv) + (seq![']'] + rest));
        lemma_p_item_rt(iv, seq![']'] + rest);
        let r = seq![']'] + rest;
        assert(r.first() == ']');
        assert(r.drop_first() =~= rest);
        assert(seq![iv] =~= items);
    } else {
        let r = seq![','] + enc_item(t2.first()) + enc_rest(t2.drop_first()) + seq![']'] + rest;
        assert(enc_rest(t2) == seq![','] + enc_item(t2.first()) + enc_rest(t2.drop_first()));
        assert(s =~= enc_item(iv) + r);
        lemma_p_item_rt(iv, r);
        assert(r.first() == ',');
        assert(r.drop_first() =~= enc_items(t2) + seq![']'] + rest);
        lemma_p_items_rt(t2, rest);
        assert(seq![iv] + t2 =~= items);
    }
}

/// Law: decoding what the encoder produced yields the same list, for every
/// list of items, the empty list included.
#[verifier::rlimit(100)]
pub proof fn lemma_round_trip(items: Seq<ItemView>)
    ensures
        p_list(enc_list(items)) == Some(items),
{
    let s = enc_list(items);
    assert(s.first() == '[');
    let r = s.drop_first();
    if items.len() == 0 {
        assert(enc_items(items) =~= Seq::<char>::empty());
        assert(r =~= seq![']']);
        assert(r.first() == ']');
        assert(r.drop_first().len() == 0);
        assert(Seq::<ItemView>::empty() =~= items);
    } else {
        assert(r =~= enc_items(items) + seq![']'] + Seq::<char>::empty());
        lemma_p_items_rt(items, Seq::empty());
        assert(r[0] == enc_item(items.first())[0]);
        assert(enc_item(items.first())[0] == '{');
        assert(r.first() != ']');
        assert(p_items(r) == Some((items, Seq::<char>::empty())));
    }
}

proof fn lemma_esc_push(t: Seq<char>, c: char)
    ensures
        esc_seq(t.push(c)) == esc_seq(t) + esc_char(c),
    decreases t.len(),
{
    if t.len() == 0 {
        assert(t.push(c).first() == c);
        assert(t.push(c).drop_first() =~= Seq::<char>::empty());
        assert(esc_seq(Seq::<char>::empty()) == Seq::<char>::empty());
        assert(esc_seq(t.push(c)) == esc_char(c) + esc_seq(t.push(c).drop_first()));
        assert(esc_seq(t.push(c)) =~= esc_seq(t) + esc_char(c));
    } else {
        assert(t.push(c).first() == t.first());
        assert(t.push(c).drop_first() =~= t.drop_first().push(c));
        lemma_esc_push(t.drop_first(), c);
        assert(esc_seq(t.push(c)) == esc_char(t.first()) + esc_seq(t.drop_first().push(c)));
        assert(esc_seq(t) == esc_char(t.first()) + esc_seq(t.drop_first()));
        assert(esc_seq(t.push(c)) =~= esc_seq(t) + esc_char(c));
    }
}

proof fn lemma_enc_rest_push(t: Seq<ItemView>, x: ItemView)
    ensures
        enc_rest(t.push(x)) == enc_rest(t) + seq![','] + enc_item(x),
    decreases t.len(),
{
    if t.len() == 0 {
        assert(t.push(x).first() == x);
        assert(t.push(x).drop_first() =~= Seq::<ItemView>::empty());
        assert(enc_rest(Seq::<ItemView>::empty()) == Seq::<char>::empty());
        assert(enc_rest(t.push(x)) == seq![','] + enc_item(x) + enc_rest(t.push(x).drop_first()));
        assert(enc_rest(t.push(x)) =~= enc_rest(t) + seq![','] + enc_item(x));
    } else {
        assert(t.push(x).first() == t.first());
        assert(t.push(x).drop_first() =~= t.drop_first().push(x));
        lemma_enc_rest_push(t.drop_first(), x);
        assert(enc_rest(t.push(x)) == seq![','] + enc_item(t.first()) + enc_rest(
            t.drop_first().push(x),
        ));
        assert(enc_rest(t) == seq![','] + enc_item(t.first()) + enc_rest(t.drop_first()));
        assert(enc_rest(t.push(x)) =~= enc_rest(t) + seq![','] + enc_item(x));
    }
}

proof fn lemma_enc_items_push(t: Seq<ItemView>, x: ItemView)
    ensures
        enc_items(t.push(x)) == if t.len() == 0 {
            enc_item(x)
        } else {
            enc_items(t) + seq![','] + enc_item(x)
        },
{
    if t.len() == 0 {
        assert(t.push(x).first() == x);
        assert(t.push(x).drop_first() =~= Seq::<ItemView>::empty());
        assert(enc_items(t.push(x)) =~= enc_item(x));
    } else {
        assert(t.push(x).first() == t.first());
        assert(t.push(x).drop_first() =~= t.drop_first().push(x));
        lemma_enc_rest_push(t.drop_first(), x);
        assert(enc_items(t.push(x)) == enc_item(t.first()) + enc_rest(t.drop_first().push(x)));
        assert(enc_items(t) == enc_item(t.first()) + enc_rest(t.drop_first()));
        assert(enc_items(t.push(x)) =~= enc_items(t) + seq![','] + enc_item(x));
    }
}

/// Appends the characters of a string slice.
fn append_str(out: &mut Vec<char>, s: &str)
    ensures
        final(out)@ == old(out)@ + s@,
{
    let ghost base = out@;
    let n = s.unicode_len();
    let mut i: usize = 0;
    while i < n
        invariant
            i <= n,
            n == s@.len(),
            out@ == base + s@.take(i as int),
        decreases n - i,
    {
        out.push(s.get_char(i));
        proof {
            assert(s@.take(i as int + 1) =~= s@.take(i as int).push(s@[i as int]));
            assert(out@ =~= base + s@.take(i as int + 1));
        }
        i += 1;
    }
    proof {
        assert(s@.take(n as int) =~= s@);
    }
}

/// The lowercase hex digit character of a value below sixteen.
fn hex_char(n: u32) -> (c: char)
    requires
        n < 16,
    ensures
        c == hex_digit(n as int),
{
    if n == 0 { '0' } else if n == 1 { '1' } else if n == 2 { '2' } else if n == 3 { '3' }
    else if n == 4 { '4' } else if n == 5 { '5' } else if n == 6 { '6' } else if n == 7 { '7' }
    else if n == 8 { '8' } else if n == 9 { '9' } else if n == 10 { 'a' } else if n == 11 { 'b' }
    else if n == 12 { 'c' } else if n == 13 { 'd' } else if n == 14 { 'e' } else { 'f' }
}

/// Appends the encoding of one string value, quotes included.
fn push_string(out: &mut Vec<char>, s: &String)
    ensures
        final(out)@ == old(out)@ + enc_string(s@),
{
    let ghost base = out@;
    out.push('"');
    let n = s.as_str().unicode_len();
    let mut i: usize = 0;
    proof {
        assert(esc_seq(s@.take(0)) =~= Seq::<char>::empty());
        assert(out@ =~= base + seq!['"'] + esc_seq(s@.take(0)));
    }
    while i < n
        invariant
            i <= n,
            n == s@.len(),
            out@ == base + seq!['"'] + esc_seq(s@.take(i as int)),
        decreases n - i,
    {
        let c = s.as_str().get_char(i);
        if c == '"' {
            out.push('\\');
            out.push('"');
        } else if c == '\\' {
            out.push('\\');
            out.push('\\');
        } else if c == '\u{8}' {
            out.push('\\');
            out.push('b');
        } else if c == '\t' {
            out.push('\\');
            out.push('t');
        } else if c == '\n' {
            out.push('\\');
            out.push('n');
        } else if c == '\u{c}' {
            out.push('\\');
            out.push('f');
        } else if c == '\r' {
            out.push('\\');
            out.push('r');
        } else {
            let u = c as u32;
            if u < 0x20 {
                out.push('\\');
                out.push('u');
                out.push('0');
                out.push('0');
                out.push(hex_char(u / 16));
                out.push(hex_char(u % 16));
            } else {
                out.push(c);
            }
        }
        proof {
            lemma_esc_push(s@.take(i as int), c);
            assert(s@.take(i as int + 1) =~= s@.take(i as int).push(c));
            assert(out@ =~= base + seq!['"'] + esc_seq(s@.take(i as int + 1)));
        }
        i += 1;
    }
    out.push('"');
    proof {
        assert(s@.take(n as int) =~= s@);
        assert(out@ =~= base + enc_string(s@));
    }
}

/// Appends the encoding of one item object.
fn push_item(out: &mut Vec<char>, it: &Item)
    ensures
        final(out)@ == old(out)@ + enc_item(it@),
{
    let ghost base = out@;
    proof {
        reveal_strlit("{\"title\":");
        reveal_strlit(",\"due\":");
        reveal_strlit("null");
        reveal_strlit(",\"done\":");
        reveal_strlit("true");
        reveal_strlit("false");
        assert("{\"title\":"@ =~= lit_open());
        assert(",\"due\":"@ =~= lit_due());
        assert("null"@ =~= lit_null());
        assert(",\"done\":"@ =~= lit_done());
        assert("true"@ =~= lit_true());
        assert("false"@ =~= lit_false());
    }
    append_str(out, "{\"title\":");
    push_string(out, &it.title);
    append_str(out, ",\"due\":");
    match &it.due {
        Some(d) => push_string(out, d),
        None => append_str(out, "null"),
    }
    append_str(out, ",\"done\":");
    if it.done {
        append_str(out, "true");
    } else {
        append_str(out, "false");
    }
    out.push('}');
    proof {
        assert(out@ =~= base + enc_item(it@));
    }
}

/// Encodes the whole list in its persisted form.
pub fn encode(todos: &Vec<Item>) -> (r: String)
    ensures
        r@ == enc_list(views(todos@)),
{
    let ghost v = views(todos@);
    let mut out: Vec<char> = Vec::new();
    out.push('[');
    proof {
        assert(v.len() == todos@.len());
        assert(enc_items(v.take(0)) =~= Seq::<char>::empty());
        assert(out@ =~= seq!['['] + enc_items(v.take(0)));
    }
    let mut i: usize = 0;
    while i < todos.len()
        invariant
            i <= todos@.len(),
            v == views(todos@),
            v.len() == todos@.len(),
            out@ == seq!['['] + enc_items(v.take(i as int)),
        decreases todos@.len() - i,
    {
        if i > 0 {
            out.push(',');
        }
        push_item(&mut out, &todos[i]);
        proof {
            lemma_enc_items_push(v.take(i as int), v[i as int]);
            assert(v.take(i as int + 1) =~= v.take(i as int).push(v[i as int]));
            assert(v[i as int] == todos@[i as int]@);
            assert(out@ =~= seq!['['] + enc_items(v.take(i as int + 1)));
        }
        i += 1;
    }
    out.push(']');
    proof {
        assert(v.take(v.len() as int) =~= v);
        assert(out@ =~= enc_list(v));
    }
    string_of(&out)
}

/// The characters of a string slice as a vector.
fn to_chars(s: &str) -> (r: Vec<char>)
    ensures
        r@ == s@,
{
    let n = s.unicode_len();
    let mut out: Vec<char> = Vec::new();
    let mut i: usize = 0;
    while i < n
        invariant
            i <= n,
            n == s@.len(),
            out@ == s@.take(i as int),
        decreases n - i,
    {
        out.push(s.get_char(i));
        proof {
            assert(s@.take(i as int + 1) =~= s@.take(i as int).push(s@[i as int]));
        }
        i += 1;
    }
    proof {
        assert(s@.take(n as int) =~= s@);
    }
    out
}

/// Consumes one literal at position `i`.
fn d_lit(v: &Vec<char>, i: usize, lit: &str) -> (r: Option<usize>)
    requires
        i <= v@.len(),
    ensures
        match r {
            Some(j) => i <= j <= v@.len() && j - i == lit@.len() && p_lit(
                v@.skip(i as int),
                lit@,
            ) == Some(v@.skip(j as int)),
            None => p_lit(v@.skip(i as int), lit@) is None,
        },
{
    let ghost s = v@.skip(i as int);
    let n = lit.unicode_len();
    if v.len() - i < n {
        proof {
            assert(s.len() < lit@.len());
            assert(!lit@.is_prefix_of(s));
        }
        return None;
    }
    let vlen = v.len();
    let mut k: usize = 0;
    while k < n
        invariant
            k <= n,
            n == lit@.len(),
            i + n <= v@.len(),
            vlen == v@.len(),
            s == v@.skip(i as int),
            forall|j: int| 0 <= j < k ==> v@[i + j] == lit@[j],
        decreases n - k,
    {
        if v[i + k] != lit.get_char(k) {
            proof {
                assert(s[k as int] == v@[i + k]);
                assert(!lit@.is_prefix_of(s)) by {
                    if lit@.is_prefix_of(s) {
                        assert(lit@[k as int] == s.subrange(0, lit@.len() as int)[k as int]);
                    }
                }
            }
            return None;
        }
        k += 1;
    }
    proof {
        assert forall|j: int| 0 <= j < n implies s.subrange(0, n as int)[j] == lit@[j] by {
            assert(s[j] == v@[i + j]);
        }
        assert(s.subrange(0, n as int) =~= lit@);
        assert(lit@.is_prefix_of(s));
        assert(s.skip(n as int) =~= v@.skip(i as int + n as int));
    }
    Some(i + n)
}

fn is_hex_c(c: char) -> (r: bool)
    ensures
        r == is_hex(c),
{
    let u = c as u32;
    (48 <= u && u <= 57) || (97 <= u && u <= 102) || (65 <= u && u <= 70)
}

fn hex_val_c(c: char) -> (r: u32)
    requires
        is_hex(c),
    ensures
        r as int == hex_val(c),
        r < 16,
{
    let u = c as u32;
    if 48 <= u && u <= 57 {
        u - 48
    } else if 97 <= u && u <= 102 {
        u - 87
    } else {
        u - 55
    }
}

/// Decodes a string body at position `i`, after the opening quote.
fn d_string_body(v: &Vec<char>, i: usize) -> (r: Option<(Vec<char>, usize)>)
    requires
        i <= v@.len(),
    ensures
        match r {
            Some((t, j)) => i <= j <= v@.len() && p_string_body(v@.skip(i as int)) == Some(
                (t@, v@.skip(j as int)),
            ),
            None => p_string_body(v@.skip(i as int)) is None,
        },
{
    let mut acc: Vec<char> = Vec::new();
    let mut cur: usize = i;
    loop
        invariant
            i <= cur <= v@.len(),
            p_string_body(v@.skip(i as int)) == (match p_string_body(v@.skip(cur as int)) {
                Some((t, r)) => Some((acc@ + t, r)),
                None => None::<(Seq<char>, Seq<char>)>,
            }),
        decreases v@.len() - cur,
    {
        let ghost s = v@.skip(cur as int);
        if cur >= v.len() {
            proof {
                assert(s.len() == 0);
            }
            return None;
        }
        proof {
            assert(s.first() == v@[cur as int]);
        }
        let c = v[cur];
        if c == '"' {
            proof {
                assert(s.drop_first() =~= v@.skip(cur as int + 1));
                assert(acc@ + Seq::<char>::empty() =~= acc@);
            }
            return Some((acc, cur + 1));
        }
        if c == '\\' {
            if v.len() - cur < 2 {
                proof {
                    assert(s.len() < 2);
                }
                return None;
            }
            proof {
                assert(s[1] == v@[cur as int + 1]);
            }
            let e = v[cur + 1];
            if e == '"' || e == '\\' || e == '/' || e == 'b' || e == 'f' || e == 'n' || e == 'r'
                || e == 't' {
                let dc = if e == '"' { '"' } else if e == '\\' { '\\' } else if e == '/' { '/' }
                    else if e == 'b' { '\u{8}' } else if e == 'f' { '\u{c}' }
                    else if e == 'n' { '\n' } else if e == 'r' { '\r' } else { '\t' };
                proof {
                    assert(dc == unesc(e));
                    assert(s.skip(2) =~= v@.skip(cur as int + 2));
                    assert forall|t: Seq<char>| true implies acc@ + (seq![unesc(e)] + t) == acc@
                        .push(unesc(e)) + t by {
                        assert(acc@ + (seq![unesc(e)] + t) =~= acc@.push(unesc(e)) + t);
                    }
                }
                acc.push(dc);
                cur = cur + 2;
            } else if e == 'u' {
                if v.len() - cur < 6 {
                    proof {
                        assert(s.len() < 6);
                    }
                    return None;
                }
                proof {
                    assert(s[2] == v@[cur as int + 2]);
                    assert(s[3] == v@[cur as int + 3]);
                    assert(s[4] == v@[cur as int + 4]);
                    assert(s[5] == v@[cur as int + 5]);
                }
                let h2 = v[cur + 2];
                let h3 = v[cur + 3];
                let h4 = v[cur + 4];
                let h5 = v[cur + 5];
                if !(is_hex_c(h2) && is_hex_c(h3) && is_hex_c(h4) && is_hex_c(h5)) {
                    return None;
                }
                let val: u32 = ((hex_val_c(h2) * 16 + hex_val_c(h3)) * 16 + hex_val_c(h4)) * 16
                    + hex_val_c(h5);
                if val >= 0x100 {
                    return None;
                }
                let dc = char_of_u32(val);
                proof {
                    assert(s.skip(6) =~= v@.skip(cur as int + 6));
                    assert forall|t: Seq<char>| true implies acc@ + (seq![dc] + t) == acc@.push(
                        dc,
                    ) + t by {
                        assert(acc@ + (seq![dc] + t) =~= acc@.push(dc) + t);
                    }
                }
                acc.push(dc);
                cur = cur + 6;
            } else {
                return None;
            }
        } else {
            proof {
                assert(s.drop_first() =~= v@.skip(cur as int + 1));
                assert forall|t: Seq<char>| true implies acc@ + (seq![c] + t) == acc@.push(c)
                    + t by {
                    assert(acc@ + (seq![c] + t) =~= acc@.push(c) + t);
                }
            }
            acc.push(c);
            cur = cur + 1;
        }
    }
}

/// Relies on `char::from_u32`: every value below 0x100 is a valid scalar, and
/// the call returns the character with exactly that scalar value.
#[verifier::external_body]
fn char_of_u32(val: u32) -> (c: char)
    requires
        val < 0x100,
    ensures
        c == ((val as u32) as char),
{
    char::from_u32(val).unwrap()
}

/// Decodes one string value at position `i`, quotes included.
fn d_string(v: &Vec<char>, i: usize) -> (r: Option<(Vec<char>, usize)>)
    requires
        i <= v@.len(),
    ensures
        match r {
            Some((t, j)) => i <= j <= v@.len() && p_string(v@.skip(i as int)) == Some(
                (t@, v@.skip(j as int)),
            ),
            None => p_string(v@.skip(i as int)) is None,
        },
{
    let ghost s = v@.skip(i as int);
    if i >= v.len() {
        return None;
    }
    proof {
        assert(s.first() == v@[i as int]);
    }
    if v[i] != '"' {
        return None;
    }
    proof {
        assert(s.drop_first() =~= v@.skip(i as int + 1));
    }
    d_string_body(v, i + 1)
}

/// Decodes one item object at position `i`.
fn d_item(v: &Vec<char>, i: usize) -> (r: Option<(Item, usize)>)
    requires
        i <= v@.len(),
    ensures
        match r {
            Some((it, j)) => i < j <= v@.len() && p_item(v@.skip(i as int)) == Some(
                (it@, v@.skip(j as int)),
            ),
            None => p_item(v@.skip(i as int)) is None,
        },
{
    proof {
        reveal_strlit("{\"title\":");
        reveal_strlit(",\"due\":");
        reveal_strlit("null");
        reveal_strlit(",\"done\":");
        reveal_strlit("true");
        reveal_strlit("false");
        reveal_strlit("}");
        assert("{\"title\":"@ =~= lit_open());
        assert(",\"due\":"@ =~= lit_due());
        assert("null"@ =~= lit_null());
        assert(",\"done\":"@ =~= lit_done());
        assert("true"@ =~= lit_true());
        assert("false"@ =~= lit_false());
        assert("}"@ =~= seq!['}']);
    }
    let j1 = match d_lit(v, i, "{\"title\":") {
        Some(j) => j,
        None => {
            return None;
        },
    };
    let (title_chars, j2) = match d_string(v, j1) {
        Some(p) => p,
        None => {
            return None;
        },
    };
    let j3 = match d_lit(v, j2, ",\"due\":") {
        Some(j) => j,
        None => {
            return None;
        },
    };
    let (due, j4) = match d_lit(v, j3, "null") {
        Some(j) => (None, j),
        None => match d_string(v, j3) {
            Some((dchars, j)) => (Some(string_of(&dchars)), j),
            None => {
                return None;
            },
        },
    };
    let j5 = match d_lit(v, j4, ",\"done\":") {
        Some(j) => j,
        None => {
            return None;
        },
    };
    let (done, j6) = match d_lit(v, j5, "true") {
        Some(j) => (true, j),
        None => match d_lit(v, j5, "false") {
            Some(j) => (false, j),
            None => {
                return None;
            },
        },
    };
    let j7 = match d_lit(v, j6, "}") {
        Some(j) => j,
        None => {
            return None;
        },
    };
    let it = Item { title: string_of(&title_chars), due, done };
    Some((it, j7))
}

/// Decodes the items of a non-empty array, from after the opening bracket.
fn d_items(v: &Vec<char>, i: usize) -> (r: Option<(Vec<Item>, usize)>)
    requires
        i <= v@.len(),
    ensures
        match r {
            Some((items, j)) => j <= v@.len() && p_items(v@.skip(i as int)) == Some(
                (views(items@), v@.skip(j as int)),
            ),
            None => p_items(v@.skip(i as int)) is None,
        },
{
    let mut acc: Vec<Item> = Vec::new();
    let mut cur: usize = i;
    proof {
        assert(views(acc@) =~= Seq::<ItemView>::empty());
    }
    loop
        invariant
            i <= cur <= v@.len(),
            p_items(v@.skip(i as int)) == (match p_items(v@.skip(cur as int)) {
                Some((ivs, r)) => Some((views(acc@) + ivs, r)),
                None => None::<(Seq<ItemView>, Seq<char>)>,
            }),
        decreases v@.len() - cur,
    {
        let ghost s = v@.skip(cur as int);
        let (it, j) = match d_item(v, cur) {
            Some(p) => p,
            None => {
                return None;
            },
        };
        let ghost iv = it@;
        if j < v.len() && v[j] == ',' {
            proof {
                assert(v@.skip(j as int).first() == v@[j as int]);
                assert(v@.skip(j as int).drop_first() =~= v@.skip(j as int + 1));
                assert forall|ivs: Seq<ItemView>| true implies views(acc@) + (seq![iv] + ivs)
                    == views(acc@.push(it)) + ivs by {
                    assert(views(acc@.push(it)) =~= views(acc@).push(iv));
                    assert(views(acc@) + (seq![iv] + ivs) =~= views(acc@).push(iv) + ivs);
                }
            }
            acc.push(it);
            cur = j + 1;
        } else if j < v.len() && v[j] == ']' {
            proof {
                assert(v@.skip(j as int).first() == v@[j as int]);
                assert(v@.skip(j as int).drop_first() =~= v@.skip(j as int + 1));
                assert(views(acc@.push(it)) =~= views(acc@).push(iv));
                assert(views(acc@) + seq![iv] =~= views(acc@).push(iv));
            }
            acc.push(it);
            return Some((acc, j + 1));
        } else {
            proof {
                if j < v@.len() {
                    assert(v@.skip(j as int).first() == v@[j as int]);
                } else {
                    assert(v@.skip(j as int).len() == 0);
                }
            }
            return None;
        }
    }
}

/// Decodes a persisted list; `None` for anything the canonical form (and the
/// accepted string escapes) does not cover.
pub fn decode(s: &str) -> (r: Option<Vec<Item>>)
    ensures
        match r {
            Some(items) => p_list(s@) == Some(views(items@)),
            None => p_list(s@) is None,
        },
{
    let v = to_chars(s);
    if v.len() == 0 {
        return None;
    }
    proof {
        assert(s@.first() == v@[0]);
    }
    if v[0] != '[' {
        return None;
    }
    proof {
        assert(s@.drop_first() =~= v@.skip(1));
    }
    if v.len() >= 2 && v[1] == ']' {
        proof {
            assert(v@.skip(1).first() == v@[1]);
        }
        if v.len() == 2 {
            let empty_items: Vec<Item> = Vec::new();
            proof {
                assert(v@.skip(1).drop_first().len() == 0);
                assert(views(empty_items@) =~= Seq::<ItemView>::empty());
            }
            return Some(empty_items);
        } else {
            proof {
                assert(v@.skip(1).drop_first().len() > 0);
            }
            return None;
        }
    }
    proof {
        if v@.skip(1).len() > 0 {
            assert(v@.skip(1).first() == v@[1]);
        }
    }
    match d_items(&v, 1) {
        Some((items, j)) => {
            if j == v.len() {
                proof {
                    assert(v@.skip(j as int).len() == 0);
                }
                Some(items)
            } else {
                proof {
                    assert(v@.skip(j as int).len() > 0);
                }
                None
            }
        },
        None => None,
    }
}

} // verus!
