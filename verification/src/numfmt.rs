//! Decimal rendering of counters and timestamps, for the validation summary
//! and the listing.
use vstd::prelude::*;

verus! {

/// The character for one decimal digit.
pub open spec fn digit_char(d: nat) -> char {
    if d == 0 {
        '0'
    } else if d == 1 {
        '1'
    } else if d == 2 {
        '2'
    } else if d == 3 {
        '3'
    } else if d == 4 {
        '4'
    } else if d == 5 {
        '5'
    } else if d == 6 {
        '6'
    } else if d == 7 {
        '7'
    } else if d == 8 {
        '8'
    } else {
        '9'
    }
}

/// The decimal digits of `n`, most significant first.
pub open spec fn dec_digits(n: nat) -> Seq<char>
    decreases n,
{
    if n < 10 {
        seq![digit_char(n)]
    } else {
        dec_digits(n / 10) + seq![digit_char(n % 10)]
    }
}

/// `s` left-padded with zeros to width `w`.
pub open spec fn zero_pad(s: Seq<char>, w: nat) -> Seq<char> {
    if s.len() >= w {
        s
    } else {
        Seq::new((w - s.len()) as nat, |i: int| '0') + s
    }
}

/// How many digits small numbers have.
pub proof fn lemma_dec_digits_len(n: nat)
    ensures
        n < 10 ==> dec_digits(n).len() == 1,
        10 <= n < 100 ==> dec_digits(n).len() == 2,
        100 <= n < 1000 ==> dec_digits(n).len() == 3,
        n >= 1000 ==> dec_digits(n).len() >= 4,
    decreases n,
{
    if n >= 10 {
        lemma_dec_digits_len(n / 10);
    }
}

/// The string for one decimal digit.
fn digit_str(d: u64) -> (r: &'static str)
    requires
        d < 10,
    ensures
        r@ == seq![digit_char(d as nat)],
{
    let r: &'static str = if d == 0 {
        "0"
    } else if d == 1 {
        "1"
    } else if d == 2 {
        "2"
    } else if d == 3 {
        "3"
    } else if d == 4 {
        "4"
    } else if d == 5 {
        "5"
    } else if d == 6 {
        "6"
    } else if d == 7 {
        "7"
    } else if d == 8 {
        "8"
    } else {
        "9"
    };
    proof {
        reveal_strlit("0");
        reveal_strlit("1");
        reveal_strlit("2");
        reveal_strlit("3");
        reveal_strlit("4");
        reveal_strlit("5");
        reveal_strlit("6");
        reveal_strlit("7");
        reveal_strlit("8");
        reveal_strlit("9");
        assert(r@ =~= seq![digit_char(d as nat)]);
    }
    r
}

/// Render `n` in decimal.
pub fn u64_to_string(n: u64) -> (r: String)
    ensures
        r@ == dec_digits(n as nat),
    decreases n,
{
    if n < 10 {
        String::from_str(digit_str(n))
    } else {
        let mut s = u64_to_string(n / 10);
        s.append(digit_str(n % 10));
        s
    }
}

/// Render `n` in decimal, zero-padded to at least two digits.
pub fn pad2_u64(n: u64) -> (r: String)
    ensures
        r@ == zero_pad(dec_digits(n as nat), 2),
{
    proof {
        lemma_dec_digits_len(n as nat);
    }
    if n < 10 {
        let mut s = String::from_str("0");
        s.append(digit_str(n));
        proof {
            reveal_strlit("0");
            assert(s@ =~= zero_pad(dec_digits(n as nat), 2));
        }
        s
    } else {
        let s = u64_to_string(n);
        s
    }
}

/// Render `n` in decimal, zero-padded to at least four digits.
pub fn pad4_u64(n: u64) -> (r: String)
    ensures
        r@ == zero_pad(dec_digits(n as nat), 4),
{
    proof {
        lemma_dec_digits_len(n as nat);
    }
    if n >= 1000 {
        let s = u64_to_string(n);
        return s;
    }
    let mut s = String::new();
    if n < 10 {
        s.append("000");
    } else if n < 100 {
        s.append("00");
    } else {
        s.append("0");
    }
    s.append(u64_to_string(n).as_str());
    proof {
        reveal_strlit("000");
        reveal_strlit("00");
        reveal_strlit("0");
        assert(s@ =~= zero_pad(dec_digits(n as nat), 4));
    }
    s
}

/// The rendering of a Unix timestamp as `yyyy-mm-dd hh:mm:ss`, using the
/// flat-calendar approximation of 365-day years and 31-day months.
pub open spec fn spec_humanize(secs: u64) -> Seq<char> {
    let days = secs as nat / 86400;
    let today = secs as nat % 86400;
    let hours = today / 3600;
    let minutes = (today % 3600) / 60;
    let seconds = today % 60;
    let year = 1970 + days / 365;
    let doy = days % 365;
    let month = (if doy / 31 < 11 {
        doy / 31
    } else {
        11
    }) + 1;
    let day = doy % 31 + 1;
    zero_pad(dec_digits(year), 4) + seq!['-'] + zero_pad(dec_digits(month), 2) + seq!['-']
        + zero_pad(dec_digits(day), 2) + seq![' '] + zero_pad(dec_digits(hours), 2) + seq![':']
        + zero_pad(dec_digits(minutes), 2) + seq![':'] + zero_pad(dec_digits(seconds), 2)
}

/// Render a Unix timestamp for the listing, approximate calendar as in
/// `spec_humanize`.
pub fn humanize_time(secs: u64) -> (r: String)
    ensures
        r@ == spec_humanize(secs),
{
    let days = secs / 86400;
    let today = secs % 86400;
    let hours = today / 3600;
    let minutes = (today % 3600) / 60;
    let seconds = today % 60;
    let year = 1970 + days / 365;
    let doy = days % 365;
    let month = (if doy / 31 < 11 {
        doy / 31
    } else {
        11
    }) + 1;
    let day = doy % 31 + 1;
    let mut s = pad4_u64(year);
    s.append("-");
    s.append(pad2_u64(month).as_str());
    s.append("-");
    s.append(pad2_u64(day).as_str());
    s.append(" ");
    s.append(pad2_u64(hours).as_str());
    s.append(":");
    s.append(pad2_u64(minutes).as_str());
    s.append(":");
    s.append(pad2_u64(seconds).as_str());
    proof {
        reveal_strlit("-");
        reveal_strlit(" ");
        reveal_strlit(":");
        assert(s@ =~= spec_humanize(secs));
    }
    s
}

} // verus!
