//! Textual keyframe building for the hand-written scale transform: a list of
//! (size, frame) pairs becomes the keyframe objects of an animated scale
//! property, each with the fixed smooth easing.

use vstd::prelude::*;
use vstd::string::*;

verus! {

/// The easing attached to every textual keyframe.
pub const EASING: &'static str = "\n    \"i\": {\"x\": [0.833, 0.833, 0.833], \"y\": [0.833, 0.833, 0.833]},\n    \"o\": {\"x\": [0.167, 0.167, 0.167], \"y\": [0.167, 0.167, 0.167]}\n";

/// The decimal digit character for `d` of 0 to 9.
pub open spec fn dec_digit(d: int) -> char {
    if d == 0 {
        '0'
    } else if d == 1 {
        '1'
    } else if d == 2 {
        '2'
    } else if d == 3 {
        '3'
    } else if d == 4 {
        '4'
    } else if d == 5 {
        '5'
    } else if d == 6 {
        '6'
    } else if d == 7 {
        '7'
    } else if d == 8 {
        '8'
    } else {
        '9'
    }
}

/// Decimal digits of a non-negative number, most significant first.
pub open spec fn dec_str_nat(n: int) -> Seq<char>
    decreases n,
{
    if n < 10 {
        seq![dec_digit(n)]
    } else {
        dec_str_nat(n / 10).push(dec_digit(n % 10))
    }
}

/// Decimal representation of an integer, with a leading minus sign when
/// negative.
pub open spec fn dec_str(n: int) -> Seq<char> {
    if n < 0 {
        seq!['-'] + dec_str_nat(-n)
    } else {
        dec_str_nat(n)
    }
}

/// The text of one scale keyframe: the size on all three axes, the time, and
/// the easing.
pub open spec fn keyframe_str(size: int, time: int) -> Seq<char> {
    "{\"s\":["@ + dec_str(size) + ", "@ + dec_str(size) + ", 100], \"t\": "@ + dec_str(time)
        + ", "@ + EASING@ + "}"@
}

/// The joined keyframe texts of the pairs, each time shifted by `delay`.
pub open spec fn keyframes_str(pairs: Seq<(i16, i16)>, delay: int) -> Seq<char>
    decreases pairs.len(),
{
    if pairs.len() == 0 {
        Seq::empty()
    } else if pairs.len() == 1 {
        keyframe_str(pairs[0].0 as int, pairs[0].1 + delay)
    } else {
        keyframes_str(pairs.drop_last(), delay) + ","@ + keyframe_str(
            pairs.last().0 as int,
            pairs.last().1 + delay,
        )
    }
}

/// The one-character string of a decimal digit.
fn digit_str(d: u64) -> (r: &'static str)
    requires
        d < 10,
    ensures
        r@ == seq![dec_digit(d as int)],
{
    proof {
        reveal_strlit("0");
        reveal_strlit("1");
        reveal_strlit("2");
        reveal_strlit("3");
        reveal_strlit("4");
        reveal_strlit("5");
        reveal_strlit("6");
        reveal_strlit("7");
        reveal_strlit("8");
        reveal_strlit("9");
    }
    let r: &'static str = if d == 0 {
        "0"
    } else if d == 1 {
        "1"
    } else if d == 2 {
        "2"
    } else if d == 3 {
        "3"
    } else if d == 4 {
        "4"
    } else if d == 5 {
        "5"
    } else if d == 6 {
        "6"
    } else if d == 7 {
        "7"
    } else if d == 8 {
        "8"
    } else {
        "9"
    };
    proof {
        assert(r@ =~= seq![dec_digit(d as int)]);
    }
    r
}

/// Decimal digits of a non-negative number.
fn dec_nat_string(n: u64) -> (r: String)
    ensures
        r@ == dec_str_nat(n as int),
    decreases n,
{
    if n < 10 {
        String::from_str(digit_str(n))
    } else {
        let mut s = dec_nat_string(n / 10);
        s.append(digit_str(n % 10));
        proof {
            assert(s@ =~= dec_str_nat(n as int));
        }
        s
    }
}

/// Decimal representation of an integer.
fn dec_string(v: i64) -> (r: String)
    ensures
        r@ == dec_str(v as int),
{
    if v < 0 {
        proof {
            reveal_strlit("-");
        }
        let mut s = String::from_str("-");
        let m: u64 = if v == i64::MIN {
            9_223_372_036_854_775_808u64
        } else {
            (-v) as u64
        };
        s.append(dec_nat_string(m).as_str());
        proof {
            assert("-"@ =~= seq!['-']);
            assert(s@ =~= dec_str(v as int));
        }
        s
    } else {
        let s = dec_nat_string(v as u64);
        s
    }
}

/// Build the text of the animated scale keyframes for the (size, frame)
/// pairs, times shifted by `delay`, joined with commas.
pub fn scale_keyframes(size_frame_tuple: Vec<(i16, i16)>, delay: i16) -> (r: String)
    requires
        forall|k: int|
            0 <= k < size_frame_tuple@.len() ==> i16::MIN <= (#[trigger] size_frame_tuple@[k]).1
                + delay <= i16::MAX,
    ensures
        r@ == keyframes_str(size_frame_tuple@, delay as int),
{
    let n = size_frame_tuple.len();
    let mut r = String::new();
    let mut i: usize = 0;
    while i < n
        invariant
            n == size_frame_tuple@.len(),
            forall|k: int|
                0 <= k < size_frame_tuple@.len() ==> i16::MIN <= (#[trigger] size_frame_tuple@[
                    k
                ]).1 + delay <= i16::MAX,
            0 <= i <= n,
            r@ == keyframes_str(size_frame_tuple@.subrange(0, i as int), delay as int),
        decreases n - i,
    {
        let (size, frame) = size_frame_tuple[i];
        if i > 0 {
            proof {
                reveal_strlit(",");
            }
            r.append(",");
            proof {
                assert(","@ =~= seq![',']);
            }
        }
        let t = frame + delay;
        proof {
            reveal_strlit("{\"s\":[");
            reveal_strlit(", ");
            reveal_strlit(", 100], \"t\": ");
            reveal_strlit("}");
        }
        r.append("{\"s\":[");
        r.append(dec_string(size as i64).as_str());
        r.append(", ");
        r.append(dec_string(size as i64).as_str());
        r.append(", 100], \"t\": ");
        r.append(dec_string(t as i64).as_str());
        r.append(", ");
        r.append(EASING);
        r.append("}");
        proof {
            let prefix = size_frame_tuple@.subrange(0, i as int);
            let step = size_frame_tuple@.subrange(0, i as int + 1);
            assert(step.drop_last() =~= prefix);
            assert(step.last() == size_frame_tuple@[i as int]);
            assert(r@ =~= keyframes_str(step, delay as int));
        }
        i = i + 1;
    }
    proof {
        assert(size_frame_tuple@.subrange(0, n as int) =~= size_frame_tuple@);
    }
    r
}

} // verus!
