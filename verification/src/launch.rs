//! The folder named on the command line.

use vstd::prelude::*;

verus! {

/// `s` without its leading double quotes.
pub open spec fn without_leading_quotes(s: Seq<char>) -> Seq<char>
    decreases s.len(),
{
    if s.len() > 0 && s[0] == '"' {
        without_leading_quotes(s.drop_first())
    } else {
        s
    }
}

/// `s` without its trailing double quotes.
pub open spec fn without_trailing_quotes(s: Seq<char>) -> Seq<char>
    decreases s.len(),
{
    if s.len() > 0 && s.last() == '"' {
        without_trailing_quotes(s.drop_last())
    } else {
        s
    }
}

/// `s` with all leading and all trailing double quotes removed, as
/// Explorer may pass a path wrapped in them.
pub open spec fn unquoted(s: Seq<char>) -> Seq<char> {
    without_trailing_quotes(without_leading_quotes(s))
}

/// Dropping leading quotes keeps a suffix that starts with no quote, all of
/// what was dropped being quotes.
proof fn lemma_without_leading_quotes(s: Seq<char>)
    ensures
        exists|i: int|
            0 <= i <= s.len() && without_leading_quotes(s) == s.subrange(i, s.len() as int) && (
            forall|k: int| 0 <= k < i ==> s[k] == '"'),
        without_leading_quotes(s).len() > 0 ==> without_leading_quotes(s)[0] != '"',
    decreases s.len(),
{
    if s.len() > 0 && s[0] == '"' {
        lemma_without_leading_quotes(s.drop_first());
        let i = choose|i: int|
            0 <= i <= s.drop_first().len() && without_leading_quotes(s.drop_first())
                == s.drop_first().subrange(i, s.drop_first().len() as int) && (forall|k: int|
                0 <= k < i ==> s.drop_first()[k] == '"');
        assert(s.drop_first().subrange(i, s.drop_first().len() as int) =~= s.subrange(
            i + 1,
            s.len() as int,
        ));
        assert(forall|k: int| 0 <= k < i + 1 ==> s[k] == '"') by {
            assert forall|k: int| 0 <= k < i + 1 implies s[k] == '"' by {
                if k > 0 {
                    assert(s[k] == s.drop_first()[k - 1]);
                }
            }
        }
    } else {
        assert(s.subrange(0, s.len() as int) =~= s);
    }
}

/// Dropping trailing quotes keeps a prefix that ends with no quote, all of
/// what was dropped being quotes.
proof fn lemma_without_trailing_quotes(s: Seq<char>)
    ensures
        exists|j: int|
            0 <= j <= s.len() && without_trailing_quotes(s) == s.subrange(0, j) && (forall|k: int|
                j <= k < s.len() ==> s[k] == '"'),
        without_trailing_quotes(s).len() > 0 ==> without_trailing_quotes(s).last() != '"',
    decreases s.len(),
{
    if s.len() > 0 && s.last() == '"' {
        lemma_without_trailing_quotes(s.drop_last());
        let j = choose|j: int|
            0 <= j <= s.drop_last().len() && without_trailing_quotes(s.drop_last())
                == s.drop_last().subrange(0, j) && (forall|k: int|
                j <= k < s.drop_last().len() ==> s.drop_last()[k] == '"');
        assert(s.drop_last().subrange(0, j) =~= s.subrange(0, j));
        assert(forall|k: int| j <= k < s.len() ==> s[k] == '"') by {
            assert forall|k: int| j <= k < s.len() implies s[k] == '"' by {
                if k < s.len() - 1 {
                    assert(s[k] == s.drop_last()[k]);
                }
            }
        }
    } else {
        assert(s.subrange(0, s.len() as int) =~= s);
    }
}

/// Unquoting keeps a contiguous middle part of the text that neither starts
/// nor ends with a double quote, and everything cut off before and after it
/// is double quotes.
pub proof fn lemma_unquoted_is_trimmed_middle(s: Seq<char>)
    ensures
        exists|i: int, j: int|
            0 <= i <= j <= s.len() && unquoted(s) == s.subrange(i, j) && (forall|k: int|
                0 <= k < i ==> s[k] == '"') && (forall|k: int| j <= k < s.len() ==> s[k] == '"'),
        unquoted(s).len() > 0 ==> unquoted(s)[0] != '"' && unquoted(s).last() != '"',
{
    lemma_without_leading_quotes(s);
    let l = without_leading_quotes(s);
    lemma_without_trailing_quotes(l);
    let i = choose|i: int|
        0 <= i <= s.len() && l == s.subrange(i, s.len() as int) && (forall|k: int|
            0 <= k < i ==> s[k] == '"');
    let j = choose|j: int|
        0 <= j <= l.len() && without_trailing_quotes(l) == l.subrange(0, j) && (forall|k: int|
            j <= k < l.len() ==> l[k] == '"');
    assert(l.subrange(0, j) =~= s.subrange(i, i + j));
    assert forall|k: int| i + j <= k < s.len() implies s[k] == '"' by {
        assert(s[k] == l[k - i]);
    }
    if unquoted(s).len() > 0 {
        assert(unquoted(s)[0] == l[0]);
    }
}

/// Removes every leading and trailing double quote.
pub fn trim_quotes(s: &str) -> (t: &str)
    ensures
        t@ == unquoted(s@),
{
    let n = s.unicode_len();
    let mut i: usize = 0;
    assert(s@.subrange(0, n as int) =~= s@);
    while i < n && s.get_char(i) == '"'
        invariant
            n == s@.len(),
            i <= n,
            without_leading_quotes(s@) == without_leading_quotes(s@.subrange(i as int, n as int)),
        decreases n - i,
    {
        assert(s@.subrange(i as int, n as int).drop_first() =~= s@.subrange(i + 1, n as int));
        i = i + 1;
    }
    assert(without_leading_quotes(s@) == s@.subrange(i as int, n as int));
    let mut j: usize = n;
    assert(without_leading_quotes(s@.subrange(i as int, n as int)) == s@.subrange(i as int, n as int));
    while j > i && s.get_char(j - 1) == '"'
        invariant
            n == s@.len(),
            i <= j <= n,
            without_trailing_quotes(s@.subrange(i as int, n as int)) == without_trailing_quotes(
                s@.subrange(i as int, j as int),
            ),
        decreases j,
    {
        assert(s@.subrange(i as int, j as int).drop_last() =~= s@.subrange(i as int, j - 1));
        j = j - 1;
    }
    s.substring_char(i, j)
}

/// The folder to scan: the first argument after the program's name, with
/// surrounding double quotes removed; none when no argument was given.
pub fn folder_argument(args: &Vec<String>) -> (folder: Option<&str>)
    ensures
        args.len() < 2 ==> folder is None,
        args.len() >= 2 ==> (folder matches Some(f) && f@ == unquoted(args[1]@)),
{
    if args.len() < 2 {
        None
    } else {
        Some(trim_quotes(args[1].as_str()))
    }
}

} // verus!
