//! Decoding of form-encoded request bodies.
//!
//! A body is a `&`-joined list of `key=value` pairs. The decoder is
//! positional: it keeps only the text after the last `=` of each segment and
//! takes the last two such values as `(firstname, surname)`. A body with
//! fewer than two segments is rejected rather than decoded.

use vstd::prelude::*;

verus! {

/// The segments of `s` between occurrences of `sep`. There is always at
/// least one segment; an empty `s` yields one empty segment, and a trailing
/// separator yields a trailing empty segment.
pub open spec fn split_on(s: Seq<char>, sep: char) -> Seq<Seq<char>>
    decreases s.len(),
{
    if s.len() == 0 {
        seq![Seq::<char>::empty()]
    } else {
        let init = split_on(s.drop_last(), sep);
        if s.last() == sep {
            init.push(Seq::<char>::empty())
        } else {
            init.drop_last().push(init.last().push(s.last()))
        }
    }
}

pub proof fn lemma_split_on_nonempty(s: Seq<char>, sep: char)
    ensures
        split_on(s, sep).len() >= 1,
    decreases s.len(),
{
    if s.len() > 0 {
        lemma_split_on_nonempty(s.drop_last(), sep);
    }
}

/// The text after the last occurrence of `sep` in `s`: all of `s` when `sep`
/// does not occur, empty when `s` ends with `sep`.
pub open spec fn after_last(s: Seq<char>, sep: char) -> Seq<char>
    decreases s.len(),
{
    if s.len() == 0 {
        Seq::<char>::empty()
    } else if s.last() == sep {
        Seq::<char>::empty()
    } else {
        after_last(s.drop_last(), sep).push(s.last())
    }
}

proof fn lemma_after_last_subrange(s: Seq<char>, sep: char, cut: int)
    requires
        0 <= cut <= s.len(),
        cut == 0 || s[cut - 1] == sep,
        forall|j: int| cut <= j < s.len() ==> s[j] != sep,
    ensures
        after_last(s, sep) == s.subrange(cut, s.len() as int),
    decreases s.len(),
{
    if s.len() == 0 {
        assert(s.subrange(0, 0) =~= after_last(s, sep));
    } else if s.last() == sep {
        assert(cut == s.len());
        assert(s.subrange(cut, s.len() as int) =~= Seq::<char>::empty());
    } else {
        let t = s.drop_last();
        lemma_after_last_subrange(t, sep, cut);
        assert(s.subrange(cut, s.len() as int) =~= t.subrange(cut, t.len() as int).push(s.last()));
    }
}

/// Splits `s` at every occurrence of `sep`, as the body decoder does.
pub fn split_str<'a>(s: &'a str, sep: char) -> (parts: Vec<&'a str>)
    ensures
        parts@.map_values(|p: &str| p@) == split_on(s@, sep),
        parts@.len() >= 1,
{
    let n = s.unicode_len();
    let mut parts: Vec<&'a str> = Vec::new();
    let mut seg_start: usize = 0;
    let mut i: usize = 0;
    proof {
        assert(s@.subrange(0, 0) =~= Seq::<char>::empty());
        assert(parts@.map_values(|p: &str| p@) =~= split_on(s@.subrange(0, 0), sep).drop_last());
    }
    while i < n
        invariant
            n == s@.len(),
            seg_start <= i <= n,
            parts@.map_values(|p: &str| p@) == split_on(s@.subrange(0, i as int), sep).drop_last(),
            split_on(s@.subrange(0, i as int), sep).last() == s@.subrange(
                seg_start as int,
                i as int,
            ),
        decreases n - i,
    {
        let ghost prefix = s@.subrange(0, i as int);
        let ghost grown = s@.subrange(0, i + 1);
        proof {
            assert(grown.drop_last() =~= prefix);
            assert(grown.last() == s@[i as int]);
            lemma_split_on_nonempty(prefix, sep);
        }
        let c = s.get_char(i);
        if c == sep {
            let seg = s.substring_char(seg_start, i);
            let ghost parts_before = parts@;
            parts.push(seg);
            proof {
                assert(parts@.map_values(|p: &str| p@) =~= parts_before.map_values(
                    |p: &str| p@,
                ).push(seg@));
                assert(split_on(prefix, sep) =~= split_on(prefix, sep).drop_last().push(
                    split_on(prefix, sep).last(),
                ));
                assert(parts@.map_values(|p: &str| p@) =~= split_on(grown, sep).drop_last());
                assert(split_on(grown, sep).last() =~= s@.subrange(i + 1, i + 1));
            }
            seg_start = i + 1;
        } else {
            proof {
                assert(split_on(grown, sep).drop_last() =~= split_on(prefix, sep).drop_last());
                assert(split_on(grown, sep).last() =~= s@.subrange(seg_start as int, i + 1));
            }
        }
        i = i + 1;
    }
    let seg = s.substring_char(seg_start, n);
    let ghost parts_before = parts@;
    parts.push(seg);
    proof {
        assert(s@.subrange(0, n as int) =~= s@);
        assert(parts@.map_values(|p: &str| p@) =~= parts_before.map_values(|p: &str| p@).push(
            seg@,
        ));
        assert(parts@.map_values(|p: &str| p@) =~= split_on(s@, sep).drop_last().push(
            split_on(s@, sep).last(),
        ));
        assert(split_on(s@, sep) =~= split_on(s@, sep).drop_last().push(split_on(s@, sep).last()));
        lemma_split_on_nonempty(s@, sep);
    }
    parts
}

/// The suffix of `s` after its last occurrence of `sep`.
pub fn suffix_after_last<'a>(s: &'a str, sep: char) -> (v: &'a str)
    ensures
        v@ == after_last(s@, sep),
{
    let n = s.unicode_len();
    let mut cut: usize = 0;
    let mut i: usize = 0;
    while i < n
        invariant
            n == s@.len(),
            cut <= i <= n,
            cut == 0 || s@[cut - 1] == sep,
            forall|j: int| cut <= j < i ==> s@[j] != sep,
        decreases n - i,
    {
        if s.get_char(i) == sep {
            cut = i + 1;
        }
        i = i + 1;
    }
    proof {
        lemma_after_last_subrange(s@, sep, cut as int);
    }
    s.substring_char(cut, n)
}

/// Decodes a form body: splits on `&`, keeps each segment's text after its
/// last `=`, and returns the last two values, in order, as
/// `(firstname, surname)`. Keys play no part in the decoding. Returns `None`
/// exactly when the body has fewer than two segments, instead of failing.
pub fn parse_post_data(data: &str) -> (r: Option<(String, String)>)
    ensures
        ({
            let segs = split_on(data@, '&');
            match r {
                None => segs.len() < 2,
                Some(pair) => {
                    &&& segs.len() >= 2
                    &&& pair.0@ == after_last(segs[segs.len() - 2], '=')
                    &&& pair.1@ == after_last(segs[segs.len() - 1], '=')
                },
            }
        }),
{
    let parts = split_str(data, '&');
    if parts.len() < 2 {
        return None;
    }
    let f = suffix_after_last(parts[parts.len() - 2], '=');
    let s = suffix_after_last(parts[parts.len() - 1], '=');
    proof {
        let segs = split_on(data@, '&');
        assert(parts@.map_values(|p: &str| p@)[parts@.len() - 2] == segs[segs.len() - 2]);
        assert(parts@.map_values(|p: &str| p@)[parts@.len() - 1] == segs[segs.len() - 1]);
    }
    Some((f.to_owned(), s.to_owned()))
}

} // verus!
