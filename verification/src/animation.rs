//! Timing of animated images: which frame is shown as time passes.

use vstd::prelude::*;

verus! {

/// The duration given to the shown frame when its own duration is zero, in
/// nanoseconds (100 ms).
pub const FALLBACK_FRAME_NANOS: u128 = 100_000_000;

/// The largest duration std's `Duration` holds, in nanoseconds.
pub const DURATION_MAX_NANOS: u128 = 18_446_744_073_709_551_615_999_999_999;

/// Frames of an animation with their durations (nanoseconds), the frame shown and
/// how long it has been shown.
pub struct ImageAnimation<T> {
    pub frames: Vec<T>,
    pub frame_durations: Vec<u128>,
    pub current_frame: usize,
    pub elapsed_in_frame: u128,
}

/// How long frame `cur` stays when `first` says it is the frame shown when the
/// update began: a zero duration then counts as `FALLBACK_FRAME_NANOS`.
pub open spec fn frame_time(durs: Seq<u128>, cur: nat, first: bool) -> nat {
    if first && durs[cur as int] == 0 {
        FALLBACK_FRAME_NANOS as nat
    } else {
        durs[cur as int] as nat
    }
}

/// The frame after `cur`, wrapping to the first.
pub open spec fn next_frame(cur: nat, len: nat) -> nat {
    (cur + 1) % len
}

/// Advancing from frame `cur` with `e` time accumulated: while `e` covers the
/// frame's time, that time is used up and the next frame shown. At most `fuel`
/// frames are looked at; `None` when that is not enough.
pub open spec fn advance(durs: Seq<u128>, cur: nat, e: nat, first: bool, fuel: nat) -> Option<
    (nat, nat),
>
    decreases fuel,
{
    if fuel == 0 {
        None
    } else if e < frame_time(durs, cur, first) {
        Some((cur, e))
    } else {
        advance(
            durs,
            next_frame(cur, durs.len()),
            (e - frame_time(durs, cur, first)) as nat,
            false,
            (fuel - 1) as nat,
        )
    }
}

/// Some frame has a nonzero duration.
pub open spec fn some_positive(durs: Seq<u128>) -> bool {
    exists|i: int| 0 <= i < durs.len() && durs[i] > 0
}

/// Law: the frame reached does not depend on how many frames may be looked at,
/// once enough may.
pub proof fn lemma_advance_deterministic(
    durs: Seq<u128>,
    cur: nat,
    e: nat,
    first: bool,
    f1: nat,
    f2: nat,
)
    requires
        advance(durs, cur, e, first, f1) is Some,
        advance(durs, cur, e, first, f2) is Some,
    ensures
        advance(durs, cur, e, first, f1) == advance(durs, cur, e, first, f2),
    decreases f1,
{
    if e >= frame_time(durs, cur, first) {
        lemma_advance_deterministic(
            durs,
            next_frame(cur, durs.len()),
            (e - frame_time(durs, cur, first)) as nat,
            false,
            (f1 - 1) as nat,
            (f2 - 1) as nat,
        );
    }
}

/// Looking at more frames changes nothing once enough are looked at.
proof fn lemma_advance_more_fuel(durs: Seq<u128>, cur: nat, e: nat, first: bool, f: nat, g: nat)
    requires
        advance(durs, cur, e, first, f) is Some,
        f <= g,
    ensures
        advance(durs, cur, e, first, g) == advance(durs, cur, e, first, f),
    decreases f,
{
    if e >= frame_time(durs, cur, first) {
        lemma_advance_more_fuel(
            durs,
            next_frame(cur, durs.len()),
            (e - frame_time(durs, cur, first)) as nat,
            false,
            (f - 1) as nat,
            (g - 1) as nat,
        );
    }
}

/// Two frames' times that agree give the same advance.
proof fn lemma_advance_same_time(durs: Seq<u128>, cur: nat, e: nat, f1: bool, f2: bool, fuel: nat)
    requires
        frame_time(durs, cur, f1) == frame_time(durs, cur, f2),
    ensures
        advance(durs, cur, e, f1, fuel) == advance(durs, cur, e, f2, fuel),
{
}

/// Advancing by `e` and then by `b` more, starting afresh from where the first
/// advance stopped, is advancing by `e + b` at once.
proof fn lemma_advance_concat(
    durs: Seq<u128>,
    cur: nat,
    e: nat,
    b: nat,
    first: bool,
    f1: nat,
    f2: nat,
)
    requires
        advance(durs, cur, e, first, f1) is Some,
        advance(
            durs,
            advance(durs, cur, e, first, f1).unwrap().0,
            advance(durs, cur, e, first, f1).unwrap().1 + b,
            true,
            f2,
        ) is Some,
    ensures
        advance(durs, cur, e + b, first, f1 + f2) == advance(
            durs,
            advance(durs, cur, e, first, f1).unwrap().0,
            advance(durs, cur, e, first, f1).unwrap().1 + b,
            true,
            f2,
        ),
    decreases f1,
{
    let t = frame_time(durs, cur, first);
    if e < t {
        assert(frame_time(durs, cur, first) == frame_time(durs, cur, true));
        lemma_advance_same_time(durs, cur, e + b, first, true, f1 + f2);
        lemma_advance_more_fuel(durs, cur, e + b, true, f2, f1 + f2);
    } else {
        let n = next_frame(cur, durs.len());
        lemma_advance_concat(durs, n, (e - t) as nat, b, false, (f1 - 1) as nat, f2);
        assert((e + b - t) as nat == (e - t) as nat + b);
        assert((f1 + f2 - 1) as nat == (f1 - 1) as nat + f2);
    }
}

/// Law: letting `a` pass and then `b` shows the same frame, shown for the same
/// time, as letting `a + b` pass at once. The three premises are what `update`
/// ensures of the three calls.
pub proof fn lemma_update_in_steps(
    durs: Seq<u128>,
    cur: nat,
    e: nat,
    a: nat,
    b: nat,
    after_a: (nat, nat),
    after_b: (nat, nat),
    at_once: (nat, nat),
)
    requires
        exists|f: nat| #[trigger] advance(durs, cur, e + a, true, f) == Some(after_a),
        exists|f: nat| #[trigger] advance(durs, after_a.0, after_a.1 + b, true, f) == Some(after_b),
        exists|f: nat| #[trigger] advance(durs, cur, e + a + b, true, f) == Some(at_once),
    ensures
        after_b == at_once,
{
    let f1 = choose|f: nat| #[trigger] advance(durs, cur, e + a, true, f) == Some(after_a);
    let f2 = choose|f: nat| #[trigger] advance(durs, after_a.0, after_a.1 + b, true, f) == Some(after_b);
    let f3 = choose|f: nat| #[trigger] advance(durs, cur, e + a + b, true, f) == Some(at_once);
    lemma_advance_concat(durs, cur, e + a, b, true, f1, f2);
    assert(e + a + b == (e + a) + b);
    lemma_advance_deterministic(durs, cur, e + a + b, true, f1 + f2, f3);
}

/// Frames `start`, `start + 1`, ... (wrapping) up to `len` of them cover every frame.
proof fn lemma_cycle_covers(durs: Seq<u128>, start: nat)
    requires
        durs.len() > 0,
        start < durs.len(),
        forall|j: nat| j < durs.len() ==> #[trigger] durs[((start + j) as int) % (durs.len() as int)]
            == 0,
    ensures
        !some_positive(durs),
{
    let len = durs.len() as int;
    assert forall|t: int| 0 <= t < len implies durs[t] == 0 by {
        let j = if t >= start {
            t - start
        } else {
            t + len - start
        };
        assert(0 <= j < len);
        assert((start + j) % len == t) by {
            if t >= start {
                assert(start + j == t);
                vstd::arithmetic::div_mod::lemma_small_mod(t as nat, len as nat);
            } else {
                assert(start + j == t + len);
                vstd::arithmetic::div_mod::lemma_mod_add_multiples_vanish(t, len);
                vstd::arithmetic::div_mod::lemma_small_mod(t as nat, len as nat);
            }
        }
        assert(durs[((start + (j as nat)) as int) % len] == 0);
    }
}

impl<T> ImageAnimation<T> {
    /// The durations match the frames and the shown frame exists.
    pub open spec fn wf(&self) -> bool {
        &&& self.frame_durations@.len() == self.frames@.len()
        &&& self.frames@.len() > 0 ==> self.current_frame < self.frames@.len()
    }

    /// Lets `dt` nanoseconds pass. With at most one frame nothing changes. Otherwise
    /// the time is added to the shown frame's and frames are passed while their
    /// durations are covered (a zero duration of the frame shown at the start
    /// counting as 100 ms).
    pub fn update(&mut self, dt: u128)
        requires
            old(self).frames@.len() > 1 ==> {
                &&& old(self).wf()
                &&& old(self).elapsed_in_frame + dt <= DURATION_MAX_NANOS
                &&& some_positive(old(self).frame_durations@) || old(self).elapsed_in_frame + dt
                    < FALLBACK_FRAME_NANOS
            },
        ensures
            final(self).frames@ == old(self).frames@,
            final(self).frame_durations@ == old(self).frame_durations@,
            old(self).frames@.len() <= 1 ==> final(self).current_frame == old(self).current_frame
                && final(self).elapsed_in_frame == old(self).elapsed_in_frame,
            old(self).frames@.len() > 1 ==> final(self).wf() && exists|f: nat|
                #[trigger] advance(
                    old(self).frame_durations@,
                    old(self).current_frame as nat,
                    (old(self).elapsed_in_frame + dt) as nat,
                    true,
                    f,
                ) == Some((final(self).current_frame as nat, final(self).elapsed_in_frame as nat)),
    {
        if self.frames.len() == 0 {
            return;
        }
        if self.frames.len() > 1 {
            let len = self.frames.len();
            let ghost durs = self.frame_durations@;
            let ghost c0 = self.current_frame as nat;
            self.elapsed_in_frame = self.elapsed_in_frame + dt;
            let ghost e0 = self.elapsed_in_frame as nat;
            let mut current_dur = self.frame_durations[self.current_frame];
            if current_dur == 0 {
                current_dur = FALLBACK_FRAME_NANOS;
            }
            let ghost mut first = true;
            let ghost mut steps: nat = 0;
            let ghost mut start: nat = c0;
            let ghost mut z: nat = 0;
            proof {
                vstd::arithmetic::div_mod::lemma_small_mod(c0, len as nat);
            }
            while self.elapsed_in_frame >= current_dur
                invariant
                    len == self.frames@.len(),
                    len > 1,
                    self.frame_durations@ == durs,
                    durs.len() == len,
                    self.frames@ == old(self).frames@,
                    self.current_frame < len,
                    current_dur as nat == frame_time(durs, self.current_frame as nat, first),
                    first ==> z == 0,
                    start < len,
                    z < len,
                    self.current_frame as int == ((start + z) as int) % (len as int),
                    forall|j: nat| j < z ==> #[trigger] durs[((start + j) as int) % (len as int)] == 0,
                    some_positive(durs) || (first && self.elapsed_in_frame < FALLBACK_FRAME_NANOS),
                    forall|f: nat|
                        #![trigger advance(durs, c0, e0, true, f + steps)]
                        advance(durs, c0, e0, true, f + steps) == advance(
                            durs,
                            self.current_frame as nat,
                            self.elapsed_in_frame as nat,
                            first,
                            f,
                        ),
                decreases self.elapsed_in_frame, len - z,
            {
                let ghost cur = self.current_frame as nat;
                let ghost e = self.elapsed_in_frame as nat;
                let ghost was_first = first;
                assert(frame_time(durs, cur, first) > 0 || !first) by {
                    if first {
                        assert(frame_time(durs, cur, true) > 0);
                    }
                }
                self.elapsed_in_frame = self.elapsed_in_frame - current_dur;
                self.current_frame = (self.current_frame + 1) % len;
                proof {
                    let ghost old_steps = steps;
                    steps = steps + 1;
                    assert forall|f: nat|
                        #![trigger advance(durs, c0, e0, true, f + steps)]
                        advance(durs, c0, e0, true, f + steps) == advance(
                            durs,
                            self.current_frame as nat,
                            self.elapsed_in_frame as nat,
                            false,
                            f,
                        ) by {
                        assert(f + steps == (f + 1) + old_steps);
                        assert(advance(durs, c0, e0, true, (f + 1) + old_steps) == advance(
                            durs,
                            cur,
                            e,
                            was_first,
                            f + 1,
                        ));
                    }
                    if durs[cur as int] > 0 || was_first {
                        start = self.current_frame as nat;
                        z = 0;
                        vstd::arithmetic::div_mod::lemma_small_mod(start, len as nat);
                    } else {
                        assert(durs[((start + z) as int) % (len as int)] == 0);
                        assert(self.current_frame as int == ((start + z + 1) as int) % (len as int)) by {
                            vstd::arithmetic::div_mod::lemma_add_mod_noop(
                                (start + z) as int,
                                1,
                                len as int,
                            );
                            vstd::arithmetic::div_mod::lemma_small_mod(1, len as nat);
                        }
                        if z + 1 == len {
                            lemma_cycle_covers(durs, start);
                        }
                        z = z + 1;
                    }
                    first = false;
                }
                current_dur = self.frame_durations[self.current_frame];
            }
            proof {
                assert(advance(
                    durs,
                    self.current_frame as nat,
                    self.elapsed_in_frame as nat,
                    first,
                    1,
                ) == Some((self.current_frame as nat, self.elapsed_in_frame as nat)));
                assert(advance(durs, c0, e0, true, 1 + steps) == advance(
                    durs,
                    self.current_frame as nat,
                    self.elapsed_in_frame as nat,
                    first,
                    1,
                ));
                assert(advance(
                    old(self).frame_durations@,
                    old(self).current_frame as nat,
                    (old(self).elapsed_in_frame + dt) as nat,
                    true,
                    1 + steps,
                ) == Some((self.current_frame as nat, self.elapsed_in_frame as nat)));
            }
        }
    }
}

} // verus!

verus! {

/// A frame's display time in milliseconds from its GIF delay `numer / denom`
/// milliseconds: 100 when either part is zero, otherwise the quotient but at
/// least 10.
pub open spec fn frame_delay_spec(numer: u32, denom: u32) -> nat {
    if denom == 0 || numer == 0 {
        100
    } else if numer / denom >= 10 {
        (numer / denom) as nat
    } else {
        10
    }
}

/// Law: a frame with a delay shows for its delay in milliseconds, `numer / denom`,
/// but at least 10 ms and with no upper limit; a frame without one (either part
/// zero) shows for 100 ms.
pub proof fn lemma_frame_delay(numer: u32, denom: u32)
    ensures
        numer > 0 && denom > 0 ==> frame_delay_spec(numer, denom) >= numer / denom
            && frame_delay_spec(numer, denom) >= 10 && (frame_delay_spec(numer, denom) == numer
            / denom || frame_delay_spec(numer, denom) == 10),
        numer == 0 || denom == 0 ==> frame_delay_spec(numer, denom) == 100,
{
}

/// A frame's display time in milliseconds from its GIF delay.
pub fn frame_delay_ms(numer: u32, denom: u32) -> (r: u32)
    ensures
        r == frame_delay_spec(numer, denom),
{
    if denom == 0 || numer == 0 {
        100
    } else {
        let q = numer / denom;
        if q >= 10 {
            q
        } else {
            10
        }
    }
}

impl<T> ImageAnimation<T> {
    /// The animation of decoded frames with their GIF delays (`numer`, `denom`
    /// milliseconds), starting at the first frame; `None` unless there are at
    /// least two frames.
    pub fn from_frames(frames: Vec<T>, delays: Vec<(u32, u32)>) -> (r: Option<ImageAnimation<T>>)
        requires
            frames@.len() == delays@.len(),
        ensures
            frames@.len() <= 1 ==> r is None,
            frames@.len() > 1 ==> (r matches Some(a) && {
                &&& a.frames@ == frames@
                &&& a.current_frame == 0
                &&& a.elapsed_in_frame == 0
                &&& a.wf()
                &&& a.frame_durations@.len() == delays@.len()
                &&& forall|i: int|
                    0 <= i < delays@.len() ==> #[trigger] a.frame_durations@[i] == frame_delay_spec(
                        delays@[i].0,
                        delays@[i].1,
                    ) * 1_000_000
            }),
    {
        if frames.len() <= 1 {
            return None;
        }
        let mut durations: Vec<u128> = Vec::new();
        let mut i: usize = 0;
        while i < delays.len()
            invariant
                i <= delays@.len(),
                durations@.len() == i,
                forall|k: int|
                    0 <= k < i ==> #[trigger] durations@[k] == frame_delay_spec(
                        delays@[k].0,
                        delays@[k].1,
                    ) * 1_000_000,
            decreases delays@.len() - i,
        {
            let (numer, denom) = delays[i];
            let ms = frame_delay_ms(numer, denom);
            durations.push((ms as u128) * 1_000_000);
            i = i + 1;
        }
        Some(ImageAnimation { frames, frame_durations: durations, current_frame: 0, elapsed_in_frame: 0 })
    }

    /// The frame shown.
    pub fn current_texture(&self) -> (r: &T)
        requires
            self.current_frame < self.frames@.len(),
        ensures
            *r == self.frames@[self.current_frame as int],
    {
        &self.frames[self.current_frame]
    }
}

} // verus!
