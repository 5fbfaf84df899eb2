use vstd::prelude::*;
use vstd::string::StrSliceExecFns;

verus! {

use crate::item::{Item, ItemView, views};
use crate::strutil::{title_matches, matches_title};

/// The characters that `str::trim` removes: Rust's `char::is_whitespace`,
/// that is the Unicode `White_Space` property.
pub open spec fn is_space(c: char) -> bool {
    let u = c as u32;
    u == 0x09 || u == 0x0A || u == 0x0B || u == 0x0C || u == 0x0D || u == 0x20 || u == 0x85
        || u == 0xA0 || u == 0x1680 || (0x2000 <= u && u <= 0x200A) || u == 0x2028 || u == 0x2029
        || u == 0x202F || u == 0x205F || u == 0x3000
}

fn is_space_c(c: char) -> (r: bool)
    ensures
        r == is_space(c),
{
    let u = c as u32;
    u == 0x09 || u == 0x0A || u == 0x0B || u == 0x0C || u == 0x0D || u == 0x20 || u == 0x85
        || u == 0xA0 || u == 0x1680 || (0x2000 <= u && u <= 0x200A) || u == 0x2028 || u == 0x2029
        || u == 0x202F || u == 0x205F || u == 0x3000
}

pub open spec fn drop_leading_spaces(s: Seq<char>) -> Seq<char>
    decreases s.len(),
{
    if s.len() > 0 && is_space(s.first()) {
        drop_leading_spaces(s.drop_first())
    } else {
        s
    }
}

pub open spec fn drop_trailing_spaces(s: Seq<char>) -> Seq<char>
    decreases s.len(),
{
    if s.len() > 0 && is_space(s.last()) {
        drop_trailing_spaces(s.drop_last())
    } else {
        s
    }
}

/// What `str::trim` leaves: the string without leading and trailing whitespace.
pub open spec fn trim_spec(s: Seq<char>) -> Seq<char> {
    drop_trailing_spaces(drop_leading_spaces(s))
}

pub open spec fn is_digit(c: char) -> bool {
    48 <= c as u32 && c as u32 <= 57
}

pub open spec fn digit_of(c: char) -> int {
    c as u32 - 48
}

pub open spec fn all_digits(s: Seq<char>) -> bool {
    forall|i: int| 0 <= i < s.len() ==> is_digit(#[trigger] s[i])
}

/// The number that a digit string denotes, most significant digit first.
pub open spec fn digits_val(s: Seq<char>) -> int
    decreases s.len(),
{
    if s.len() == 0 {
        0
    } else {
        10 * digits_val(s.drop_last()) + digit_of(s.last())
    }
}

/// The value of a token exactly as `str::parse::<usize>` accepts it after
/// trimming: an optional leading `+`, then one or more ASCII digits, with a
/// value that fits in `usize`.
pub open spec fn parse_usize_spec(s: Seq<char>) -> Option<usize> {
    let t = trim_spec(s);
    let d = if t.len() > 0 && t.first() == '+' {
        t.drop_first()
    } else {
        t
    };
    if d.len() > 0 && all_digits(d) && digits_val(d) <= usize::MAX {
        Some(digits_val(d) as usize)
    } else {
        None
    }
}

proof fn lemma_digits_val_nonneg(s: Seq<char>)
    requires
        all_digits(s),
    ensures
        digits_val(s) >= 0,
    decreases s.len(),
{
    if s.len() > 0 {
        assert forall|j: int| 0 <= j < s.drop_last().len() implies is_digit(
            #[trigger] s.drop_last()[j],
        ) by {
            assert(s.drop_last()[j] == s[j]);
        }
        lemma_digits_val_nonneg(s.drop_last());
        assert(is_digit(s.last()));
    }
}

/// Extending a digit string to the right never shrinks its value.
proof fn lemma_digits_val_extend(s: Seq<char>, k: int)
    requires
        all_digits(s),
        0 <= k <= s.len(),
    ensures
        digits_val(s) >= digits_val(s.take(k)),
    decreases s.len() - k,
{
    if k == s.len() {
        assert(s.take(k) =~= s);
    } else {
        assert forall|j: int| 0 <= j < s.drop_last().len() implies is_digit(
            #[trigger] s.drop_last()[j],
        ) by {
            assert(s.drop_last()[j] == s[j]);
        }
        lemma_digits_val_extend(s.drop_last(), k);
        assert(s.drop_last().take(k) =~= s.take(k));
        lemma_digits_val_nonneg(s.drop_last());
        assert(is_digit(s.last()));
        assert(digits_val(s) == 10 * digits_val(s.drop_last()) + digit_of(s.last()));
    }
}

/// Parses a token as `str::parse::<usize>` on the trimmed token does.
pub fn parse_usize_token(s: &str) -> (r: Option<usize>)
    ensures
        r == parse_usize_spec(s@),
{
    let n = s.unicode_len();
    let mut start: usize = 0;
    proof {
        assert(s@.skip(0) =~= s@);
    }
    loop
        invariant
            start <= n,
            n == s@.len(),
            drop_leading_spaces(s@) == drop_leading_spaces(s@.skip(start as int)),
        ensures
            start <= n,
            n == s@.len(),
            drop_leading_spaces(s@) == s@.skip(start as int),
        decreases n - start,
    {
        if start >= n {
            proof {
                assert(s@.skip(start as int).len() == 0);
            }
            break;
        }
        let c = s.get_char(start);
        if !is_space_c(c) {
            proof {
                assert(s@.skip(start as int).first() == s@[start as int]);
            }
            break;
        }
        proof {
            assert(s@.skip(start as int).first() == s@[start as int]);
            assert(s@.skip(start as int).drop_first() =~= s@.skip(start as int + 1));
        }
        start += 1;
    }
    let mut end: usize = n;
    proof {
        assert(s@.skip(start as int) =~= s@.subrange(start as int, n as int));
    }
    loop
        invariant
            start <= end <= n,
            n == s@.len(),
            drop_leading_spaces(s@) == s@.skip(start as int),
            drop_trailing_spaces(s@.skip(start as int)) == drop_trailing_spaces(
                s@.subrange(start as int, end as int),
            ),
        ensures
            start <= end <= n,
            trim_spec(s@) == s@.subrange(start as int, end as int),
        decreases end,
    {
        if end == start {
            proof {
                assert(s@.subrange(start as int, end as int).len() == 0);
            }
            break;
        }
        let c = s.get_char(end - 1);
        if !is_space_c(c) {
            proof {
                assert(s@.subrange(start as int, end as int).last() == s@[end as int - 1]);
            }
            break;
        }
        proof {
            assert(s@.subrange(start as int, end as int).last() == s@[end as int - 1]);
            assert(s@.subrange(start as int, end as int).drop_last() =~= s@.subrange(
                start as int,
                end as int - 1,
            ));
        }
        end -= 1;
    }
    let ghost t = s@.subrange(start as int, end as int);
    let mut p = start;
    if start < end && s.get_char(start) == '+' {
        p = start + 1;
    }
    let ghost d = if t.len() > 0 && t.first() == '+' {
        t.drop_first()
    } else {
        t
    };
    proof {
        if t.len() > 0 && t.first() == '+' {
            assert(t.first() == s@[start as int]);
            assert(t.drop_first() =~= s@.subrange(p as int, end as int));
        }
        assert(d =~= s@.subrange(p as int, end as int));
    }
    if p == end {
        proof {
            assert(d.len() == 0);
        }
        return None;
    }
    let ghost dd = s@.subrange(p as int, end as int);
    let mut acc: usize = 0;
    let mut i = p;
    loop
        invariant
            p <= i <= end <= n,
            p < end,
            n == s@.len(),
            trim_spec(s@) == t,
            dd == s@.subrange(p as int, end as int),
            d == dd,
            d == (if t.len() > 0 && t.first() == '+' {
                t.drop_first()
            } else {
                t
            }),
            forall|j: int| 0 <= j < i - p ==> is_digit(#[trigger] dd[j]),
            acc as int == digits_val(dd.take(i - p)),
        ensures
            all_digits(dd),
            acc as int == digits_val(dd),
            trim_spec(s@) == t,
            d == dd,
            d == (if t.len() > 0 && t.first() == '+' {
                t.drop_first()
            } else {
                t
            }),
        decreases end - i,
    {
        if i >= end {
            proof {
                assert(dd.take(end as int - p as int) =~= dd);
            }
            break;
        }
        let c = s.get_char(i);
        let u = c as u32;
        if !(48 <= u && u <= 57) {
            proof {
                assert(dd[i as int - p as int] == s@[i as int]);
                assert(!is_digit(dd[i as int - p as int]));
                assert(!all_digits(dd));
            }
            return None;
        }
        let dig = (u - 48) as usize;
        let next: u128 = acc as u128 * 10 + dig as u128;
        proof {
            assert(dd.take(i as int - p as int + 1).drop_last() =~= dd.take(i as int - p as int));
            assert(dd.take(i as int - p as int + 1).last() == dd[i as int - p as int]);
            assert(dd[i as int - p as int] == s@[i as int]);
            assert(next as int == digits_val(dd.take(i as int - p as int + 1)));
        }
        if next > usize::MAX as u128 {
            proof {
                if all_digits(dd) {
                    lemma_digits_val_extend(dd, i as int - p as int + 1);
                    assert(digits_val(dd) > usize::MAX);
                }
            }
            return None;
        }
        acc = next as usize;
        i += 1;
    }
    proof {
        lemma_digits_val_nonneg(dd);
        assert(parse_usize_spec(s@) == Some((digits_val(d) as usize)));
    }
    Some(acc)
}

/// How a user token selects an item: by position, or by title prefix.
#[derive(Debug, PartialEq, Eq)]
pub enum TodoPicker {
    Index(usize),
    Title(String),
}

/// The mathematical value of a selector.
pub enum SelView {
    Index(usize),
    Title(Seq<char>),
}

impl View for TodoPicker {
    type V = SelView;

    open spec fn view(&self) -> SelView {
        match self {
            TodoPicker::Index(n) => SelView::Index(*n),
            TodoPicker::Title(t) => SelView::Title(t@),
        }
    }
}

/// The selector a raw token denotes: an index when the trimmed token parses
/// as a non-negative integer, else a title prefix (the raw token itself).
pub open spec fn picker_spec(s: Seq<char>) -> SelView {
    match parse_usize_spec(s) {
        Some(n) => SelView::Index(n),
        None => SelView::Title(s),
    }
}

pub fn parse_picker(arg: String) -> (r: TodoPicker)
    ensures
        r@ == picker_spec(arg@),
{
    match parse_usize_token(arg.as_str()) {
        Some(n) => TodoPicker::Index(n),
        None => TodoPicker::Title(arg),
    }
}

/// The last position whose title matches the pattern (the toggles' tie-break).
pub open spec fn last_match(items: Seq<ItemView>, pat: Seq<char>) -> Option<int>
    decreases items.len(),
{
    if items.len() == 0 {
        None
    } else if title_matches(items.last().title, pat) {
        Some(items.len() - 1)
    } else {
        last_match(items.drop_last(), pat)
    }
}

/// The first position whose title matches the pattern (delete's tie-break).
pub open spec fn first_match(items: Seq<ItemView>, pat: Seq<char>) -> Option<int>
    decreases items.len(),
{
    if items.len() == 0 {
        None
    } else if title_matches(items.first().title, pat) {
        Some(0)
    } else {
        match first_match(items.drop_first(), pat) {
            None => None,
            Some(i) => Some(i + 1),
        }
    }
}

/// Where a selector resolves with last-match-wins (done and undone).
pub open spec fn resolve_last(sel: SelView, items: Seq<ItemView>) -> Option<int> {
    match sel {
        SelView::Index(n) => if (n as int) < items.len() {
            Some(n as int)
        } else {
            None
        },
        SelView::Title(t) => last_match(items, t),
    }
}

/// Where a selector resolves with first-match-wins (delete).
pub open spec fn resolve_first(sel: SelView, items: Seq<ItemView>) -> Option<int> {
    match sel {
        SelView::Index(n) => if (n as int) < items.len() {
            Some(n as int)
        } else {
            None
        },
        SelView::Title(t) => first_match(items, t),
    }
}

/// An `Option<usize>` as the `Option<int>` the match specs use.
pub open spec fn opt_int(o: Option<usize>) -> Option<int> {
    match o {
        Some(i) => Some(i as int),
        None => None,
    }
}

proof fn lemma_first_match_skip(items: Seq<ItemView>, pat: Seq<char>, i: int)
    requires
        0 <= i <= items.len(),
        forall|j: int| 0 <= j < i ==> !title_matches(#[trigger] items[j].title, pat),
    ensures
        first_match(items, pat) == match first_match(items.skip(i), pat) {
            None => None::<int>,
            Some(k) => Some(k + i),
        },
    decreases i,
{
    if i == 0 {
        assert(items.skip(0) =~= items);
        if first_match(items, pat) is Some {
            let k = first_match(items, pat)->0;
            assert(Some(k) == Some(k + 0));
        }
    } else {
        assert(!title_matches(items[0].title, pat));
        assert(items.first() == items[0]);
        assert forall|j: int| 0 <= j < i - 1 implies !title_matches(
            #[trigger] items.drop_first()[j].title,
            pat,
        ) by {
            assert(items.drop_first()[j] == items[j + 1]);
        }
        lemma_first_match_skip(items.drop_first(), pat, i - 1);
        assert(items.drop_first().skip(i - 1) =~= items.skip(i));
    }
}

/// The position the toggle operations use for a title pattern: the last
/// matching position, or none.
pub fn find_last(todos: &Vec<Item>, pat: &String) -> (r: Option<usize>)
    ensures
        opt_int(r) == last_match(views(todos@), pat@),
        match r {
            Some(b) => b < todos@.len(),
            None => true,
        },
{
    let ghost v = views(todos@);
    let mut best: Option<usize> = None;
    let mut i: usize = 0;
    while i < todos.len()
        invariant
            i <= todos@.len(),
            v == views(todos@),
            v.len() == todos@.len(),
            opt_int(best) == last_match(v.take(i as int), pat@),
            match best {
                Some(b) => b < i,
                None => true,
            },
        decreases todos@.len() - i,
    {
        let m = matches_title(todos[i].title.as_str(), pat.as_str());
        proof {
            assert(v[i as int] == todos@[i as int]@);
            assert(v.take(i as int + 1).drop_last() =~= v.take(i as int));
            assert(v.take(i as int + 1).last() == v[i as int]);
        }
        if m {
            best = Some(i);
        }
        i += 1;
    }
    proof {
        assert(v.take(todos@.len() as int) =~= v);
    }
    best
}

/// The position delete uses for a title pattern: the first matching position,
/// or none.
pub fn find_first(todos: &Vec<Item>, pat: &String) -> (r: Option<usize>)
    ensures
        opt_int(r) == first_match(views(todos@), pat@),
        match r {
            Some(b) => b < todos@.len(),
            None => true,
        },
{
    let ghost v = views(todos@);
    let mut i: usize = 0;
    while i < todos.len()
        invariant
            i <= todos@.len(),
            v == views(todos@),
            v.len() == todos@.len(),
            forall|j: int| 0 <= j < i ==> !title_matches(#[trigger] v[j].title, pat@),
        decreases todos@.len() - i,
    {
        let m = matches_title(todos[i].title.as_str(), pat.as_str());
        proof {
            assert(v[i as int] == todos@[i as int]@);
        }
        if m {
            proof {
                lemma_first_match_skip(v, pat@, i as int);
                assert(v.skip(i as int).first() == v[i as int]);
                assert(first_match(v.skip(i as int), pat@) == Some(0int));
            }
            return Some(i);
        }
        i += 1;
    }
    proof {
        lemma_first_match_skip(v, pat@, v.len() as int);
        assert(v.skip(v.len() as int).len() == 0);
    }
    None
}

} // verus!
