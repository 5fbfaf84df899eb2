use vstd::prelude::*;
use vstd::string::StrSliceExecFns;
use vstd::string::StringExecFns;

verus! {

/// The character sequence that `str::to_lowercase` returns for a given
/// character sequence: a function of the characters alone.
pub uninterp spec fn lower_of(s: Seq<char>) -> Seq<char>;

/// Relies on `str::to_lowercase`: the result depends on the input characters
/// alone, and an empty string lowercases to an empty string.
#[verifier::external_body]
pub(crate) fn lowercase(s: &str) -> (r: String)
    ensures
        r@ == lower_of(s@),
        s@.len() == 0 ==> r@.len() == 0,
{
    s.to_lowercase()
}

/// Relies on `String: FromIterator<char>`: collecting characters yields the
/// string of exactly those characters, in order.
#[verifier::external_body]
pub(crate) fn string_of(v: &Vec<char>) -> (r: String)
    ensures
        r@ == v@,
{
    v.iter().collect()
}

/// Whether the two strings hold the same characters.
pub fn eq_str(a: &str, b: &str) -> (r: bool)
    ensures
        r == (a@ == b@),
{
    let al = a.unicode_len();
    let bl = b.unicode_len();
    if al != bl {
        return false;
    }
    let mut i: usize = 0;
    while i < al
        invariant
            al == a@.len(),
            bl == b@.len(),
            al == bl,
            i <= al,
            forall|j: int| 0 <= j < i ==> a@[j] == b@[j],
        decreases al - i,
    {
        if a.get_char(i) != b.get_char(i) {
            return false;
        }
        i += 1;
    }
    proof {
        assert(a@ =~= b@);
    }
    true
}

/// Whether `p` is a prefix of `s`, character by character.
pub fn is_prefix(p: &str, s: &str) -> (r: bool)
    ensures
        r == p@.is_prefix_of(s@),
{
    let pl = p.unicode_len();
    let sl = s.unicode_len();
    if pl > sl {
        return false;
    }
    let mut i: usize = 0;
    while i < pl
        invariant
            pl == p@.len(),
            sl == s@.len(),
            pl <= sl,
            i <= pl,
            forall|j: int| 0 <= j < i ==> p@[j] == s@[j],
        decreases pl - i,
    {
        if p.get_char(i) != s.get_char(i) {
            proof {
                assert(!p@.is_prefix_of(s@)) by {
                    if p@.is_prefix_of(s@) {
                        assert(p@[i as int] == s@.subrange(0, p@.len() as int)[i as int]);
                    }
                }
            }
            return false;
        }
        i += 1;
    }
    proof {
        assert(p@ =~= s@.subrange(0, p@.len() as int));
    }
    true
}

/// Whether an item title matches a selector pattern: the lowercased pattern
/// is a prefix of the lowercased title.
pub open spec fn title_matches(title: Seq<char>, pat: Seq<char>) -> bool {
    lower_of(pat).is_prefix_of(lower_of(title))
}

/// Case-insensitive prefix test, as selector resolution uses it.
pub fn matches_title(title: &str, pat: &str) -> (r: bool)
    ensures
        r == title_matches(title@, pat@),
{
    let lt = lowercase(title);
    let lp = lowercase(pat);
    is_prefix(lp.as_str(), lt.as_str())
}

/// The words joined with single spaces; empty when there are no words.
pub open spec fn join_spec(words: Seq<Seq<char>>) -> Seq<char>
    decreases words.len(),
{
    if words.len() == 0 {
        Seq::empty()
    } else if words.len() == 1 {
        words[0]
    } else {
        words[0] + seq![' '] + join_spec(words.drop_first())
    }
}

proof fn lemma_join_push(words: Seq<Seq<char>>, w: Seq<char>)
    ensures
        join_spec(words.push(w)) == if words.len() == 0 {
            w
        } else {
            join_spec(words) + seq![' '] + w
        },
    decreases words.len(),
{
    if words.len() == 0 {
        assert(words.push(w).len() == 1);
        assert(join_spec(words.push(w)) == words.push(w)[0]);
    } else if words.len() == 1 {
        assert(words.push(w).drop_first() =~= seq![w]);
        assert(join_spec(seq![w]) == w);
    } else {
        assert(words.push(w).drop_first() =~= words.drop_first().push(w));
        lemma_join_push(words.drop_first(), w);
    }
}

/// The trailing arguments starting at `from`, joined with single spaces.
pub fn join_words(args: &Vec<String>, from: usize) -> (r: String)
    requires
        from <= args@.len(),
    ensures
        r@ == join_spec(args@.map_values(|s: String| s@).skip(from as int)),
{
    let ghost w = args@.map_values(|s: String| s@);
    let mut out = String::new();
    let mut i: usize = from;
    while i < args.len()
        invariant
            from <= i <= args@.len(),
            w == args@.map_values(|s: String| s@),
            w.len() == args@.len(),
            out@ == join_spec(w.subrange(from as int, i as int)),
        decreases args@.len() - i,
    {
        if i > from {
            out.append(" ");
        }
        out.append(args[i].as_str());
        proof {
            reveal_strlit(" ");
            assert(" "@ =~= seq![' ']);
            lemma_join_push(w.subrange(from as int, i as int), w[i as int]);
            assert(w.subrange(from as int, i as int + 1) =~= w.subrange(
                from as int,
                i as int,
            ).push(w[i as int]));
        }
        i += 1;
    }
    proof {
        assert(w.subrange(from as int, w.len() as int) =~= w.skip(from as int));
    }
    out
}

} // verus!
