//! Small display helpers: the composite state key and a human-readable
//! duration.

use vstd::prelude::*;
use vstd::string::StringExecFns;

verus! {

pub open spec fn digit_char(d: int) -> char {
    if d == 0 {
        '0'
    } else if d == 1 {
        '1'
    } else if d == 2 {
        '2'
    } else if d == 3 {
        '3'
    } else if d == 4 {
        '4'
    } else if d == 5 {
        '5'
    } else if d == 6 {
        '6'
    } else if d == 7 {
        '7'
    } else if d == 8 {
        '8'
    } else {
        '9'
    }
}

/// The decimal digits of a non-negative integer, most significant first.
pub open spec fn dec_chars(n: int) -> Seq<char>
    decreases n,
{
    if n <= 9 {
        seq![digit_char(n)]
    } else {
        dec_chars(n / 10) + seq![digit_char(n % 10)]
    }
}

/// The decimal rendering of an integer, with a leading '-' when negative.
pub open spec fn int_chars(v: int) -> Seq<char> {
    if v < 0 {
        seq!['-'] + dec_chars(-v)
    } else {
        dec_chars(v)
    }
}

fn append_digit(s: &mut String, d: u64)
    requires
        d <= 9,
    ensures
        final (s)@ == old(s)@ + seq![digit_char(d as int)],
{
    if d == 0 {
        s.append("0");
        proof {
            reveal_strlit("0");
            assert(old(s)@ + "0"@ =~= old(s)@ + seq![digit_char(0)]);
        }
    } else if d == 1 {
        s.append("1");
        proof {
            reveal_strlit("1");
            assert(old(s)@ + "1"@ =~= old(s)@ + seq![digit_char(1)]);
        }
    } else if d == 2 {
        s.append("2");
        proof {
            reveal_strlit("2");
            assert(old(s)@ + "2"@ =~= old(s)@ + seq![digit_char(2)]);
        }
    } else if d == 3 {
        s.append("3");
        proof {
            reveal_strlit("3");
            assert(old(s)@ + "3"@ =~= old(s)@ + seq![digit_char(3)]);
        }
    } else if d == 4 {
        s.append("4");
        proof {
            reveal_strlit("4");
            assert(old(s)@ + "4"@ =~= old(s)@ + seq![digit_char(4)]);
        }
    } else if d == 5 {
        s.append("5");
        proof {
            reveal_strlit("5");
            assert(old(s)@ + "5"@ =~= old(s)@ + seq![digit_char(5)]);
        }
    } else if d == 6 {
        s.append("6");
        proof {
            reveal_strlit("6");
            assert(old(s)@ + "6"@ =~= old(s)@ + seq![digit_char(6)]);
        }
    } else if d == 7 {
        s.append("7");
        proof {
            reveal_strlit("7");
            assert(old(s)@ + "7"@ =~= old(s)@ + seq![digit_char(7)]);
        }
    } else if d == 8 {
        s.append("8");
        proof {
            reveal_strlit("8");
            assert(old(s)@ + "8"@ =~= old(s)@ + seq![digit_char(8)]);
        }
    } else {
        s.append("9");
        proof {
            reveal_strlit("9");
            assert(old(s)@ + "9"@ =~= old(s)@ + seq![digit_char(9)]);
        }
    }
}

fn append_dec(s: &mut String, n: u64)
    ensures
        final (s)@ == old(s)@ + dec_chars(n as int),
    decreases n,
{
    if n >= 10 {
        append_dec(s, n / 10);
        append_digit(s, n % 10);
        proof {
            assert((old(s)@ + dec_chars(n as int / 10)) + seq![digit_char(n as int % 10)] =~= old(
                s,
            )@ + dec_chars(n as int));
        }
    } else {
        append_digit(s, n);
    }
}

fn append_i64(s: &mut String, v: i64)
    ensures
        final (s)@ == old(s)@ + int_chars(v as int),
{
    if v < 0 {
        s.append("-");
        let wide: i128 = -(v as i128);
        let mag: u64 = wide as u64;
        append_dec(s, mag);
        proof {
            reveal_strlit("-");
            assert("-"@ =~= seq!['-']);
            assert((old(s)@ + "-"@) + dec_chars(mag as int) =~= old(s)@ + int_chars(v as int));
        }
    } else {
        append_dec(s, v as u64);
    }
}

/// The composite key "feed:network" under which a pair's state is shown.
pub open spec fn spec_state_key(feed_id: Seq<char>, network_name: Seq<char>) -> Seq<char> {
    feed_id + seq![':'] + network_name
}

/// Join a feed identifier and a network name into the pair's display key.
pub fn state_key(feed_id: &str, network_name: &str) -> (r: String)
    ensures
        r@ == spec_state_key(feed_id@, network_name@),
{
    let mut s = feed_id.to_owned();
    s.append(":");
    s.append(network_name);
    proof {
        reveal_strlit(":");
        assert(":"@ =~= seq![':']);
        assert(s@ =~= spec_state_key(feed_id@, network_name@));
    }
    s
}

/// The rendering of an elapsed time: seconds alone under a minute (also
/// for a negative clock skew), then minutes with the leftover seconds,
/// then hours with the leftover minutes and seconds, zero parts omitted.
pub open spec fn spec_format_duration(seconds: int) -> Seq<char> {
    if seconds < 60 {
        int_chars(seconds) + seq!['s']
    } else if seconds < 3600 {
        let mins = seconds / 60;
        let secs = seconds % 60;
        if secs > 0 {
            dec_chars(mins) + seq!['m', ' '] + dec_chars(secs) + seq!['s']
        } else {
            dec_chars(mins) + seq!['m']
        }
    } else {
        let hours = seconds / 3600;
        let mins = (seconds % 3600) / 60;
        let secs = seconds % 60;
        if mins > 0 && secs > 0 {
            dec_chars(hours) + seq!['h', ' '] + dec_chars(mins) + seq!['m', ' '] + dec_chars(secs)
                + seq!['s']
        } else if mins > 0 {
            dec_chars(hours) + seq!['h', ' '] + dec_chars(mins) + seq!['m']
        } else if secs > 0 {
            dec_chars(hours) + seq!['h', ' '] + dec_chars(secs) + seq!['s']
        } else {
            dec_chars(hours) + seq!['h']
        }
    }
}

/// Render an elapsed number of seconds as "Ns", "Nm Ns" or "Nh Nm Ns",
/// omitting zero minute and second parts.
pub fn format_duration(seconds: i64) -> (r: String)
    ensures
        r@ == spec_format_duration(seconds as int),
{
    let mut s = String::new();
    if seconds < 60 {
        append_i64(&mut s, seconds);
        s.append("s");
        proof {
            reveal_strlit("s");
            assert(s@ =~= spec_format_duration(seconds as int));
        }
        return s;
    }
    let total: u64 = seconds as u64;
    if seconds < 3600 {
        let mins: u64 = total / 60;
        let secs: u64 = total % 60;
        append_dec(&mut s, mins);
        if secs > 0 {
            s.append("m ");
            append_dec(&mut s, secs);
            s.append("s");
            proof {
                reveal_strlit("m ");
                reveal_strlit("s");
                assert(s@ =~= spec_format_duration(seconds as int));
            }
        } else {
            s.append("m");
            proof {
                reveal_strlit("m");
                assert(s@ =~= spec_format_duration(seconds as int));
            }
        }
        return s;
    }
    let hours: u64 = total / 3600;
    let mins: u64 = (total % 3600) / 60;
    let secs: u64 = total % 60;
    append_dec(&mut s, hours);
    if mins > 0 && secs > 0 {
        s.append("h ");
        append_dec(&mut s, mins);
        s.append("m ");
        append_dec(&mut s, secs);
        s.append("s");
        proof {
            reveal_strlit("h ");
            reveal_strlit("m ");
            reveal_strlit("s");
            assert(s@ =~= spec_format_duration(seconds as int));
        }
    } else if mins > 0 {
        s.append("h ");
        append_dec(&mut s, mins);
        s.append("m");
        proof {
            reveal_strlit("h ");
            reveal_strlit("m");
            assert(s@ =~= spec_format_duration(seconds as int));
        }
    } else if secs > 0 {
        s.append("h ");
        append_dec(&mut s, secs);
        s.append("s");
        proof {
            reveal_strlit("h ");
            reveal_strlit("s");
            assert(s@ =~= spec_format_duration(seconds as int));
        }
    } else {
        s.append("h");
        proof {
            reveal_strlit("h");
            assert(s@ =~= spec_format_duration(seconds as int));
        }
    }
    s
}

} // verus!
