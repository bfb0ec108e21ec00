//! Response assembly.
//!
//! Every response is the status line, a `Content-Length` header whose value
//! is the exact byte length of the body, a blank line, and the contents of a
//! static asset, verbatim. No other header is emitted.

use vstd::prelude::*;
use vstd::string::StringSliceAdditionalSpecFns;

verus! {

/// The decimal digit character for `d`.
pub open spec fn digit_char(d: nat) -> char {
    if d == 0 {
        '0'
    } else if d == 1 {
        '1'
    } else if d == 2 {
        '2'
    } else if d == 3 {
        '3'
    } else if d == 4 {
        '4'
    } else if d == 5 {
        '5'
    } else if d == 6 {
        '6'
    } else if d == 7 {
        '7'
    } else if d == 8 {
        '8'
    } else {
        '9'
    }
}

/// The decimal numeral of `n`, most significant digit first, without leading
/// zeros (`0` itself is the single digit `0`).
pub open spec fn dec_digits(n: nat) -> Seq<char>
    decreases n,
{
    if n < 10 {
        seq![digit_char(n)]
    } else {
        dec_digits(n / 10).push(digit_char(n % 10))
    }
}

fn digit_str(d: usize) -> (r: &'static str)
    requires
        d < 10,
    ensures
        r@ == seq![digit_char(d as nat)],
{
    let r: &'static str = if d == 0 {
        "0"
    } else if d == 1 {
        "1"
    } else if d == 2 {
        "2"
    } else if d == 3 {
        "3"
    } else if d == 4 {
        "4"
    } else if d == 5 {
        "5"
    } else if d == 6 {
        "6"
    } else if d == 7 {
        "7"
    } else if d == 8 {
        "8"
    } else {
        "9"
    };
    proof {
        reveal_strlit("0");
        reveal_strlit("1");
        reveal_strlit("2");
        reveal_strlit("3");
        reveal_strlit("4");
        reveal_strlit("5");
        reveal_strlit("6");
        reveal_strlit("7");
        reveal_strlit("8");
        reveal_strlit("9");
        assert(r@ =~= seq![digit_char(d as nat)]);
    }
    r
}

/// Renders `n` in decimal.
fn dec_string(n: usize) -> (s: String)
    ensures
        s@ == dec_digits(n as nat),
    decreases n,
{
    let d = digit_str(n % 10);
    if n < 10 {
        d.to_owned()
    } else {
        let mut s = dec_string(n / 10);
        s.append(d);
        proof {
            assert(s@ =~= dec_digits(n as nat));
        }
        s
    }
}

/// The full text of a response: status line, `Content-Length` header whose
/// value is `body_len`, blank line, body.
pub open spec fn response_text(status: Seq<char>, body_len: nat, contents: Seq<char>) -> Seq<char> {
    status + "\r\nContent-Length: "@ + dec_digits(body_len) + "\r\n\r\n"@ + contents
}

/// Assembles a response around the verbatim asset `contents`. The
/// `Content-Length` value is exactly the byte length of `contents`.
pub fn build_response(status: &str, contents: &str) -> (r: String)
    ensures
        r@ == response_text(status@, contents.spec_bytes().len() as nat, contents@),
{
    let mut r = status.to_owned();
    r.append("\r\nContent-Length: ");
    let n = dec_string(contents.as_bytes().len());
    r.append(n.as_str());
    r.append("\r\n\r\n");
    r.append(contents);
    proof {
        assert(r@ =~= response_text(status@, contents.spec_bytes().len() as nat, contents@));
    }
    r
}

} // verus!
