//! Splitting a pattern into single separators and maximal runs of other
//! characters.
use vstd::prelude::*;
use vstd::string::*;

use crate::tokens::is_separator;

verus! {

/// The pieces of `s`: each separator stands alone, and every other character
/// joins the run of non-separators that follows it.
pub open spec fn split(s: Seq<char>) -> Seq<Seq<char>>
    decreases s.len(),
{
    if s.len() == 0 {
        seq![]
    } else {
        let rest = split(s.drop_first());
        if is_separator(s[0]) || s.len() == 1 || is_separator(s[1]) {
            seq![seq![s[0]]] + rest
        } else {
            seq![seq![s[0]] + rest[0]] + rest.drop_first()
        }
    }
}

/// The characters of `parts`, one after the other.
pub open spec fn concat(parts: Seq<Seq<char>>) -> Seq<char>
    decreases parts.len(),
{
    if parts.len() == 0 {
        seq![]
    } else {
        parts[0] + concat(parts.drop_first())
    }
}

/// A piece as the tokenizer produces it: one separator, or a non-empty run
/// of characters none of which is a separator.
pub open spec fn is_piece(p: Seq<char>) -> bool {
    (p.len() == 1 && is_separator(p[0])) || (p.len() >= 1 && forall|j: int|
        0 <= j < p.len() ==> !is_separator(#[trigger] p[j]))
}

/// A non-empty string that starts with a separator has it as its first piece.
proof fn lemma_split_separator(s: Seq<char>)
    requires
        s.len() >= 1,
        is_separator(s[0]),
    ensures
        split(s) == seq![seq![s[0]]] + split(s.skip(1)),
{
    assert(s.drop_first() =~= s.skip(1));
}

/// A run of `k` non-separators at the start of `s`, followed by the end of
/// `s` or by a separator, is the first piece of `s`.
proof fn lemma_split_run(s: Seq<char>, k: int)
    requires
        1 <= k <= s.len(),
        forall|j: int| 0 <= j < k ==> !is_separator(#[trigger] s[j]),
        k == s.len() || is_separator(s[k]),
    ensures
        split(s) == seq![s.take(k)] + split(s.skip(k)),
    decreases k,
{
    let t = s.drop_first();
    if k == 1 {
        assert(s.take(1) =~= seq![s[0]]);
        assert(t =~= s.skip(1));
    } else {
        assert(!is_separator(s[1]));
        assert forall|j: int| 0 <= j < k - 1 implies !is_separator(#[trigger] t[j]) by {
            assert(t[j] == s[j + 1]);
        }
        lemma_split_run(t, k - 1);
        let rest = split(t);
        assert(rest[0] == t.take(k - 1));
        assert(rest.drop_first() =~= split(t.skip(k - 1)));
        assert(seq![s[0]] + t.take(k - 1) =~= s.take(k));
        assert(t.skip(k - 1) =~= s.skip(k));
    }
}

/// Concatenating the pieces of a pattern, in order, gives back the pattern.
pub proof fn lemma_split_concat(s: Seq<char>)
    ensures
        concat(split(s)) == s,
    decreases s.len(),
{
    if s.len() > 0 {
        let rest = split(s.drop_first());
        lemma_split_concat(s.drop_first());
        if is_separator(s[0]) || s.len() == 1 || is_separator(s[1]) {
            let parts = seq![seq![s[0]]] + rest;
            assert(parts.drop_first() =~= rest);
            assert(seq![s[0]] + s.drop_first() =~= s);
        } else {
            let parts = seq![seq![s[0]] + rest[0]] + rest.drop_first();
            assert(parts.drop_first() =~= rest.drop_first());
            assert(seq![s[0]] + s.drop_first() =~= s);
            assert(seq![s[0]] + rest[0] + concat(rest.drop_first()) =~= seq![s[0]] + (rest[0]
                + concat(rest.drop_first())));
        }
    }
}

/// Every piece of a pattern is a single separator or a maximal run of other
/// characters, and no two runs stand next to each other.
pub proof fn lemma_split_pieces(s: Seq<char>)
    ensures
        forall|i: int| 0 <= i < split(s).len() ==> is_piece(#[trigger] split(s)[i]),
        forall|i: int|
            0 <= i < split(s).len() - 1 && !is_separator(split(s)[i][0]) ==> is_separator(
                #[trigger] split(s)[i + 1][0],
            ),
    decreases s.len(),
{
    if s.len() > 0 {
        let t = s.drop_first();
        let rest = split(t);
        lemma_split_pieces(t);
        if t.len() > 0 {
            lemma_split_first(t);
        }
        let parts = split(s);
        if is_separator(s[0]) || s.len() == 1 || is_separator(s[1]) {
            assert(parts =~= seq![seq![s[0]]] + rest);
            assert forall|i: int| 0 <= i < parts.len() implies is_piece(#[trigger] parts[i]) by {
                if i > 0 {
                    assert(parts[i] == rest[i - 1]);
                }
            }
            assert forall|i: int|
                0 <= i < parts.len() - 1 && !is_separator(parts[i][0]) implies is_separator(
                #[trigger] parts[i + 1][0],
            ) by {
                if i > 0 {
                    assert(parts[i] == rest[i - 1]);
                    assert(parts[i + 1] == rest[i]);
                    assert(rest[(i - 1) + 1][0] == rest[i][0]);
                } else {
                    assert(parts[0][0] == s[0]);
                    assert(parts[1] == rest[0]);
                    if t.len() == 0 {
                        assert(rest.len() == 0);
                    }
                    assert(rest[0][0] == s[1]);
                }
            }
        } else {
            let first = seq![s[0]] + rest[0];
            assert(parts =~= seq![first] + rest.drop_first());
            assert(is_piece(rest[0]));
            assert(!is_separator(rest[0][0]));
            assert(is_piece(first)) by {
                assert forall|j: int| 0 <= j < first.len() implies !is_separator(
                    #[trigger] first[j],
                ) by {
                    if j > 0 {
                        assert(first[j] == rest[0][j - 1]);
                    }
                }
            }
            assert forall|i: int| 0 <= i < parts.len() implies is_piece(#[trigger] parts[i]) by {
                if i > 0 {
                    assert(parts[i] == rest[i]);
                }
            }
            assert forall|i: int|
                0 <= i < parts.len() - 1 && !is_separator(parts[i][0]) implies is_separator(
                #[trigger] parts[i + 1][0],
            ) by {
                assert(parts[i + 1] == rest[i + 1]);
                if i > 0 {
                    assert(parts[i] == rest[i]);
                } else {
                    assert(rest.len() > 1);
                }
            }
        }
    }
}

/// The first piece of a non-empty pattern starts with its first character.
proof fn lemma_split_first(s: Seq<char>)
    requires
        s.len() > 0,
    ensures
        split(s).len() > 0,
        split(s)[0][0] == s[0],
{
}

/// Every character of `s` is a separator.
pub open spec fn only_separators(s: Seq<char>) -> bool {
    forall|j: int| 0 <= j < s.len() ==> is_separator(#[trigger] s[j])
}

/// A pattern holds only separators exactly when each of its pieces is a
/// single separator.
pub proof fn lemma_split_only_separators(s: Seq<char>)
    ensures
        only_separators(s) <==> forall|i: int|
            0 <= i < split(s).len() ==> (#[trigger] split(s)[i]).len() == 1 && is_separator(
                split(s)[i][0],
            ),
    decreases s.len(),
{
    if s.len() > 0 {
        let t = s.drop_first();
        lemma_split_only_separators(t);
        lemma_split_first(s);
        let parts = split(s);
        let rest = split(t);
        if only_separators(s) {
            assert(is_separator(s[0]));
            assert(parts =~= seq![seq![s[0]]] + rest);
            assert forall|j: int| 0 <= j < t.len() implies is_separator(#[trigger] t[j]) by {
                assert(t[j] == s[j + 1]);
            }
            assert forall|i: int| 0 <= i < parts.len() implies (#[trigger] parts[i]).len() == 1
                && is_separator(parts[i][0]) by {
                if i > 0 {
                    assert(parts[i] == rest[i - 1]);
                }
            }
        } else if forall|i: int|
            0 <= i < parts.len() ==> (#[trigger] parts[i]).len() == 1 && is_separator(
                parts[i][0],
            ) {
            assert(parts[0].len() == 1 && is_separator(s[0]));
            assert(parts =~= seq![seq![s[0]]] + rest);
            assert forall|i: int| 0 <= i < rest.len() implies (#[trigger] rest[i]).len() == 1
                && is_separator(rest[i][0]) by {
                assert(parts[i + 1] == rest[i]);
            }
            assert forall|j: int| 0 <= j < s.len() implies is_separator(#[trigger] s[j]) by {
                if j > 0 {
                    assert(s[j] == t[j - 1]);
                }
            }
        }
    }
}

/// Whether `c` is one of the separator characters.
pub fn is_separator_char(c: char) -> (r: bool)
    ensures
        r == is_separator(c),
{
    c == '/' || c == '.' || c == '-' || c == ' '
}

/// The pieces of `pattern`, in order, as owned strings.
pub fn split_format(pattern: &str) -> (r: Vec<String>)
    ensures
        r.deep_view() == split(pattern@),
{
    let n = pattern.unicode_len();
    let mut parts: Vec<String> = Vec::new();
    let mut last: usize = 0;
    let mut i: usize = 0;
    assert(pattern@.skip(0) =~= pattern@);
    assert(parts.deep_view() + split(pattern@) =~= split(pattern@));
    while i < n
        invariant
            n == pattern@.len(),
            last <= i <= n,
            forall|j: int| last <= j < i ==> !is_separator(#[trigger] pattern@[j]),
            parts.deep_view() + split(pattern@.skip(last as int)) == split(pattern@),
        decreases n - i,
    {
        let c = pattern.get_char(i);
        if is_separator_char(c) {
            let ghost rest = pattern@.skip(last as int);
            if last != i {
                let run = pattern.substring_char(last, i);
                proof {
                    assert forall|j: int| 0 <= j < i - last implies !is_separator(
                        #[trigger] rest[j],
                    ) by {
                        assert(rest[j] == pattern@[last + j]);
                    }
                    lemma_split_run(rest, i - last);
                    assert(rest.take(i - last) =~= run@);
                    assert(rest.skip(i - last) =~= pattern@.skip(i as int));
                }
                let ghost before = parts.deep_view();
                parts.push(String::from_str(run));
                proof {
                    assert(parts.deep_view() =~= before.push(run@));
                    assert(before + split(rest) =~= parts.deep_view() + split(
                        pattern@.skip(i as int),
                    ));
                }
            }
            let ghost at = pattern@.skip(i as int);
            let sep = pattern.substring_char(i, i + 1);
            proof {
                lemma_split_separator(at);
                assert(sep@ =~= seq![at[0]]);
                assert(at.skip(1) =~= pattern@.skip(i + 1));
            }
            let ghost before = parts.deep_view();
            parts.push(String::from_str(sep));
            proof {
                assert(parts.deep_view() =~= before.push(sep@));
                assert(before + split(at) =~= parts.deep_view() + split(pattern@.skip(i + 1)));
            }
            last = i + 1;
        }
        i = i + 1;
    }
    if last < n {
        let ghost rest = pattern@.skip(last as int);
        let run = pattern.substring_char(last, n);
        proof {
            assert forall|j: int| 0 <= j < n - last implies !is_separator(#[trigger] rest[j]) by {
                assert(rest[j] == pattern@[last + j]);
            }
            lemma_split_run(rest, n - last);
            assert(rest.take(n - last) =~= run@);
            assert(rest.skip(n - last) =~= Seq::<char>::empty());
        }
        let ghost before = parts.deep_view();
        parts.push(String::from_str(run));
        proof {
            assert(parts.deep_view() =~= before.push(run@));
            assert(before + split(rest) =~= parts.deep_view());
        }
    } else {
        assert(pattern@.skip(last as int) =~= Seq::<char>::empty());
        assert(parts.deep_view() + split(Seq::<char>::empty()) =~= parts.deep_view());
    }
    parts
}

} // verus!
