//! Times as the editor shows them.
use crate::text::{decimal, law_digits_stand_for_their_number, padded, push_padded};
use crate::timeline::{as_unsigned, to_unsigned};
use crate::video::Fraction;
use vstd::arithmetic::div_mod::lemma_fundamental_div_mod_converse;
use vstd::prelude::*;

verus! {

/// The nanoseconds of one second.
pub const NSEC_PER_SEC: u64 = 1_000_000_000;

/// Two digits of `n`, or more where it has more, and the separator before them.
pub open spec fn field(n: nat) -> Seq<char> {
    seq![':'] + padded(n, 2)
}

/// The frame, counted from the beginning, that is shown at `ns`.
pub open spec fn frame_number(ns: nat, fps: Fraction) -> nat {
    ns * as_unsigned(fps.numer as int) as nat / (as_unsigned(fps.denom as int) as nat
        * NSEC_PER_SEC as nat)
}

/// How many frames a second is counted to have: the rate, rounded up.
pub open spec fn frames_per_second(fps: Fraction) -> nat {
    ((as_unsigned(fps.numer as int) + as_unsigned(fps.denom as int) - 1) as nat) / (as_unsigned(
        fps.denom as int,
    ) as nat)
}

/// Hours, minutes and seconds, and the number of the frame within the second where the frame rate
/// is known.
pub open spec fn timecode_text(ns: nat, fps: Option<Fraction>) -> Seq<char> {
    let seconds = ns / NSEC_PER_SEC as nat;
    let clock = padded(seconds / 3600, 2) + field(seconds / 60 % 60) + field(seconds % 60);
    match fps {
        Some(fps) => clock + field(frame_number(ns, fps) % frames_per_second(fps)),
        None => clock,
    }
}

/// Whether the frames up to `ns` can be counted at this rate.
pub open spec fn countable(ns: nat, fps: Option<Fraction>) -> bool {
    fps matches Some(fps) ==> {
        &&& ns * as_unsigned(fps.numer as int) <= u64::MAX
        &&& 0 < as_unsigned(fps.denom as int) * NSEC_PER_SEC <= u64::MAX
        &&& as_unsigned(fps.numer as int) + as_unsigned(fps.denom as int) <= u64::MAX
        &&& as_unsigned(fps.numer as int) > 0
    }
}

/// `ns` as a timecode.
pub fn timecode(ns: u64, fps: Option<Fraction>) -> (res: String)
    requires
        countable(ns as nat, fps),
    ensures
        res@ == timecode_text(ns as nat, fps),
{
    let seconds: u64 = ns / NSEC_PER_SEC;
    let mut text = "".to_owned();
    proof {
        reveal_strlit("");
        reveal_strlit(":");
        assert(seconds % 3600 / 60 == seconds / 60 % 60);
        assert(":"@ =~= seq![':']);
    }
    push_padded(&mut text, seconds / 3600, 2);
    text.append(":");
    push_padded(&mut text, seconds % 3600 / 60, 2);
    text.append(":");
    push_padded(&mut text, seconds % 60, 2);
    assert(text@ =~= timecode_text(ns as nat, None));
    if let Some(fps) = fps {
        let numer: u64 = to_unsigned(fps.numer as i64);
        let denom: u64 = to_unsigned(fps.denom as i64);
        let total_frames: u64 = ns * numer / (denom * NSEC_PER_SEC);
        let tc_fps: u64 = (numer + denom - 1) / denom;
        proof {
            assert(tc_fps > 0) by (nonlinear_arith)
                requires
                    numer > 0,
                    denom > 0,
                    tc_fps == (numer + denom - 1) / denom as int,
            ;
        }
        text.append(":");
        push_padded(&mut text, total_frames % tc_fps, 2);
        assert(text@ =~= timecode_text(ns as nat, Some(fps)));
    }
    text
}

/// The position and the length of a recording as timecodes.
pub fn timecode_label(pos: u64, dur: u64, fps: Option<Fraction>) -> (res: String)
    requires
        countable(pos as nat, fps),
        countable(dur as nat, fps),
    ensures
        res@ == timecode_text(pos as nat, fps) + " / "@ + timecode_text(dur as nat, fps),
{
    let mut text = timecode(pos, fps);
    text.append(" / ");
    text.append(timecode(dur, fps).as_str());
    text
}

proof fn lemma_two_digits(n: nat)
    requires
        n < 100,
    ensures
        padded(n, 2).len() == 2,
{
    reveal_with_fuel(decimal, 2);
}

/// As long as a recording is shorter than a hundred hours, and has no more than a hundred frames a
/// second, its timecodes have all the same length: two digits for each field.
pub proof fn law_timecodes_have_one_length(ns: nat, fps: Option<Fraction>)
    requires
        countable(ns, fps),
        ns / NSEC_PER_SEC as nat / 3600 < 100,
        fps matches Some(fps) ==> frames_per_second(fps) <= 100,
    ensures
        timecode_text(ns, fps).len() == if fps is Some {
            11nat
        } else {
            8
        },
{
    let seconds = ns / NSEC_PER_SEC as nat;
    lemma_two_digits(seconds / 3600);
    lemma_two_digits(seconds / 60 % 60);
    lemma_two_digits(seconds % 60);
    if let Some(fps) = fps {
        let rate = frames_per_second(fps);
        let numer = as_unsigned(fps.numer as int);
        let denom = as_unsigned(fps.denom as int);
        assert(rate > 0) by (nonlinear_arith)
            requires
                numer > 0,
                denom > 0,
                rate == (numer + denom - 1) / denom,
        ;
        lemma_two_digits(frame_number(ns, fps) % rate);
    }
}

/// The first three fields of a timecode stand for its time: hours, minutes below sixty and seconds
/// below sixty, which together are the whole seconds of the time. Without a frame rate there is
/// nothing more.
pub proof fn law_fields_stand_for_their_time(ns: nat, h: nat, m: nat, s: nat, rest: nat)
    requires
        m < 60,
        s < 60,
        rest < 1_000_000_000,
        ns == (3600 * h + 60 * m + s) * 1_000_000_000 + rest,
    ensures
        timecode_text(ns, None) == padded(h, 2) + seq![':'] + padded(m, 2) + seq![':'] + padded(
            s,
            2,
        ),
{
    let seconds = 3600 * h + 60 * m + s;
    assert(ns / 1_000_000_000 == seconds);
    assert(seconds / 3600 == h && seconds / 60 % 60 == m && seconds % 60 == s);
    assert(timecode_text(ns, None) =~= padded(h, 2) + seq![':'] + padded(m, 2) + seq![':'] + padded(
        s,
        2,
    ));
}

/// The last field of a timecode stands for the frame within the second: of all frames up to the
/// time, of which there are `frames`, those since the last multiple of `rate`, the frame rate
/// rounded up.
pub proof fn law_last_field_stands_for_the_frame(
    ns: nat,
    fps: Fraction,
    frames: nat,
    rate: nat,
    whole: nat,
    frame: nat,
)
    requires
        fps.numer > 0,
        fps.denom > 0,
        frames * fps.denom * 1_000_000_000 <= ns * fps.numer,
        ns * fps.numer < (frames + 1) * fps.denom * 1_000_000_000,
        (rate - 1) * fps.denom < fps.numer,
        fps.numer <= rate * fps.denom,
        frames == whole * rate + frame,
        frame < rate,
    ensures
        timecode_text(ns, Some(fps)) == timecode_text(ns, None) + seq![':'] + padded(frame, 2),
{
    let n = fps.numer as int;
    let d = fps.denom as int;
    let unit = d * 1_000_000_000;
    assert(frame_number(ns, fps) == frames) by {
        let x = ns * n;
        assert(frames * unit <= x < (frames + 1) * unit) by (nonlinear_arith)
            requires
                unit == d * 1_000_000_000,
                frames * d * 1_000_000_000 <= x,
                x < (frames + 1) * d * 1_000_000_000,
        ;
        assert(x == unit * frames + (x - frames * unit) && 0 <= x - frames * unit < unit)
            by (nonlinear_arith)
            requires
                frames * unit <= x < (frames + 1) * unit,
        ;
        lemma_fundamental_div_mod_converse(x, unit, frames as int, x - frames * unit);
    }
    assert(frames_per_second(fps) == rate) by {
        let x = n + d - 1;
        assert(0 <= x - rate * d < d) by (nonlinear_arith)
            requires
                x == n + d - 1,
                (rate - 1) * d < n,
                n <= rate * d,
        ;
        lemma_fundamental_div_mod_converse(x, d, rate as int, x - rate * d);
    }
    assert(frames % rate == frame) by {
        lemma_fundamental_div_mod_converse(
            frames as int,
            rate as int,
            whole as int,
            frame as int,
        );
    }
    assert(timecode_text(ns, Some(fps)) =~= timecode_text(ns, None) + seq![':'] + padded(frame, 2));
}

/// Times that differ in their whole seconds have different timecodes.
pub proof fn law_timecodes_tell_seconds_apart(a: nat, b: nat)
    requires
        timecode_text(a, None) == timecode_text(b, None),
    ensures
        a / 1_000_000_000 == b / 1_000_000_000,
{
    let (x, y) = (timecode_text(a, None), timecode_text(b, None));
    let (sa, sb) = (a / 1_000_000_000, b / 1_000_000_000);
    let n = x.len();
    lemma_two_digits(sa / 60 % 60);
    lemma_two_digits(sb / 60 % 60);
    lemma_two_digits(sa % 60);
    lemma_two_digits(sb % 60);
    assert(x.subrange(n - 2, n as int) =~= padded(sa % 60, 2));
    assert(y.subrange(n - 2, n as int) =~= padded(sb % 60, 2));
    assert(x.subrange(n - 5, n - 3) =~= padded(sa / 60 % 60, 2));
    assert(y.subrange(n - 5, n - 3) =~= padded(sb / 60 % 60, 2));
    assert(x.take(n - 6) =~= padded(sa / 3600, 2));
    assert(y.take(n - 6) =~= padded(sb / 3600, 2));
    law_digits_stand_for_their_number(sa % 60, 2);
    law_digits_stand_for_their_number(sb % 60, 2);
    law_digits_stand_for_their_number(sa / 60 % 60, 2);
    law_digits_stand_for_their_number(sb / 60 % 60, 2);
    law_digits_stand_for_their_number(sa / 3600, 2);
    law_digits_stand_for_their_number(sb / 3600, 2);
}

/// The text that is shown for a time tells its hours, minutes and seconds, and that for a position
/// in a recording tells both times, the position first.
pub proof fn law_label_tells_both_times(
    pos: u64,
    dur: u64,
    pos_text: String,
    dur_text: String,
    label: String,
    fps: Option<Fraction>,
)
    requires
        countable(pos as nat, fps),
        countable(dur as nat, fps),
        call_ensures(timecode, (pos, fps), pos_text),
        call_ensures(timecode, (dur, fps), dur_text),
        call_ensures(timecode_label, (pos, dur, fps), label),
    ensures
        label@ == pos_text@ + " / "@ + dur_text@,
        fps is None && pos_text@ == dur_text@ ==> pos / 1_000_000_000 == dur / 1_000_000_000,
{
    if fps is None && pos_text@ == dur_text@ {
        law_timecodes_tell_seconds_apart(pos as nat, dur as nat);
    }
}

} // verus!
