//! Splitting raw request text into the request line and the body.
//!
//! Only two parts of a request are ever read: the first line, which is the
//! route key, and the last non-empty line, which carries the form body of a
//! mutating request. Headers in between are ignored.
//!
//! Lines end at `\n`, an immediately preceding `\r` is dropped, and a final
//! line ending is optional, as in Rust's line iteration.

use vstd::prelude::*;
use crate::form::split_on;
use crate::form::split_str;

verus! {

/// Drops one trailing carriage return.
pub open spec fn strip_cr(seg: Seq<char>) -> Seq<char> {
    if seg.len() > 0 && seg.last() == '\r' {
        seg.drop_last()
    } else {
        seg
    }
}

/// The lines of `text`: split at `\n`; every segment but the last was
/// terminated by a `\n`, so a `\r` before it is dropped; the segment after
/// the last `\n` stays verbatim and is no line at all when it is empty.
/// Empty text has no lines.
pub open spec fn lines_of(text: Seq<char>) -> Seq<Seq<char>> {
    let raw = split_on(text, '\n');
    let init = raw.drop_last().map_values(|seg: Seq<char>| strip_cr(seg));
    if raw.last().len() == 0 {
        init
    } else {
        init.push(raw.last())
    }
}

/// The last line that is not empty, or the empty sequence when every line is.
pub open spec fn last_nonempty(ls: Seq<Seq<char>>) -> Seq<char>
    decreases ls.len(),
{
    if ls.len() == 0 {
        Seq::<char>::empty()
    } else if ls.last().len() > 0 {
        ls.last()
    } else {
        last_nonempty(ls.drop_last())
    }
}

/// Splits raw request text into the request line (the first line) and the
/// body (the last non-empty line; empty when no line is non-empty). Returns
/// `None` exactly when the text has no lines at all.
pub fn extract_request_parts(request: &str) -> (r: Option<(String, String)>)
    ensures
        ({
            let ls = lines_of(request@);
            match r {
                None => ls.len() == 0,
                Some(pair) => ls.len() > 0 && pair.0@ == ls[0] && pair.1@ == last_nonempty(ls),
            }
        }),
{
    let raw = split_str(request, '\n');
    let ghost raw_spec = split_on(request@, '\n');
    let ghost init_spec = raw_spec.drop_last().map_values(|seg: Seq<char>| strip_cr(seg));
    let ghost ls = lines_of(request@);
    let mut lines: Vec<&str> = Vec::new();
    let mut k: usize = 0;
    while k + 1 < raw.len()
        invariant
            k + 1 <= raw.len(),
            raw@.map_values(|p: &str| p@) == raw_spec,
            raw_spec == split_on(request@, '\n'),
            init_spec == raw_spec.drop_last().map_values(|seg: Seq<char>| strip_cr(seg)),
            raw_spec.len() == raw@.len(),
            lines@.len() == k as int,
            forall|t: int| 0 <= t < k ==> lines@.map_values(|p: &str| p@)[t] == init_spec[t],
        decreases raw.len() - k,
    {
        let seg = raw[k];
        proof {
            assert(seg@ == raw_spec[k as int]);
            assert(init_spec[k as int] == strip_cr(raw_spec.drop_last()[k as int]));
            assert(raw_spec.drop_last()[k as int] == raw_spec[k as int]);
        }
        let n = seg.unicode_len();
        let line: &str = if n > 0 && seg.get_char(n - 1) == '\r' {
            let cut = seg.substring_char(0, n - 1);
            proof {
                assert(cut@ =~= seg@.drop_last());
            }
            cut
        } else {
            seg
        };
        proof {
            assert(line@ == strip_cr(raw_spec[k as int]));
        }
        lines.push(line);
        k = k + 1;
    }
    let lastseg = raw[k];
    proof {
        assert(k as int == raw_spec.len() - 1);
        assert(lastseg@ == raw_spec[k as int]);
        assert(lastseg@ == raw_spec.last());
        assert(lines@.map_values(|p: &str| p@) =~= init_spec);
    }
    if !lastseg.is_empty() {
        let ghost lines_before = lines@;
        lines.push(lastseg);
        proof {
            assert(lines@.map_values(|p: &str| p@) =~= lines_before.map_values(
                |p: &str| p@,
            ).push(lastseg@));
            assert(lines@.map_values(|p: &str| p@) =~= ls);
        }
    } else {
        proof {
            assert(lines@.map_values(|p: &str| p@) =~= ls);
        }
    }
    let ghost lviews = lines@.map_values(|p: &str| p@);
    let m = lines.len();
    proof {
        assert(lviews == ls);
        assert(forall|t: int| 0 <= t < m ==> ls[t] == #[trigger] lviews[t]);
    }
    if m == 0 {
        return None;
    }
    let first = lines[0].to_owned();
    proof {
        assert(ls.subrange(0, m as int) =~= ls);
    }
    let mut j: usize = m;
    let mut body: Option<&str> = None;
    while j > 0 && body.is_none()
        invariant
            j <= m <= lines.len(),
            m as int == lines@.len(),
            ls == lines_of(request@),
            ls.len() == m as int,
            lviews == lines@.map_values(|p: &str| p@),
            forall|t: int| 0 <= t < m ==> ls[t] == #[trigger] lviews[t],
            match body {
                None => last_nonempty(ls) == last_nonempty(ls.subrange(0, j as int)),
                Some(b) => b@ == last_nonempty(ls),
            },
        decreases j,
    {
        let ghost upto = ls.subrange(0, j as int);
        proof {
            assert(upto.drop_last() =~= ls.subrange(0, j - 1));
            assert(upto.last() == ls[j - 1]);
            assert(ls[j - 1] == lviews[j - 1]);
        }
        j = j - 1;
        if !lines[j].is_empty() {
            body = Some(lines[j]);
        }
    }
    let body_string = match body {
        Some(b) => b.to_owned(),
        None => {
            proof {
                assert(ls.subrange(0, 0) =~= Seq::<Seq<char>>::empty());
            }
            String::new()
        },
    };
    proof {
        assert(ls[0] == lviews[0]);
    }
    Some((first, body_string))
}

} // verus!
