//! What the control of a CMIS module is for: each setting lands in the bits of its
//! lane in the byte of its register, and nothing else is written.

use vstd::prelude::*;

use crate::cmis::advert::parsed_repr;
use crate::cmis::cmis_api::{
    active_appl, active_appls, active_config_at, advertisement, appl_staged, be_bytes,
    be_bytes_read_back, be_i16, channel_freq, dp_driven, dp_lanes,
    dp_lanes_with_steady_revision, duration, flat_memory, freq_channel, freq_config, has_lane,
    identity, init_applied, init_ms, is_v4, lane_config, lane_field, lane_value, lanes_renamed, laser_tuned,
    linear, low_mask, nibble_ms, object_text_or, on_side, packed, packed_reads_back,
    rounded_quotient, rx_staged, scs, si_bytes, si_param_staged, si_staged, si_written,
    side_staged, timing_ms, tx_staged, tx_switched, val_u32, with_lane, with_lanes,
    with_lanes_is_masked, word_or_zero, CmisView, APPLY_DPINIT_OFFSET, CCMIS_CFG_SUPPORT_PAGE,
    CMIS_REV_LINEAR, DP_INIT_DEINIT_OFFSET, DP_TX_TURN_OFFSET, DURATIONS_PAGE,
    GRID_SPACING_OFFSET, LASER_CONFIG_CHANNEL_OFFSET, MAX_PROG_POWER_OFFSET,
    MIN_PROG_POWER_OFFSET, MODULE_PWR_OFFSET, TUNABLE_LASER_PAGE, TX_CONFIG_POWER_OFFSET,
};
use crate::hal::{SfpAnswers, SfpAsk, SfpTrace};
use crate::json::{field, Val, Vals};
use crate::sff_api::or_zero;
use crate::text::{decimal, decimal_reads_back, parsed_u32, without_suffix};
use crate::text_laws::signs_are_parsed;

verus! {

// ---- memory ----

/// Whether single bytes of a module always read as they do now.
pub open spec fn still(a: SfpAnswers) -> bool {
    forall|h: Seq<SfpAsk>, at: usize| #[trigger] (a.read)(h, at, 1) == (a.read)(Seq::empty(), at, 1)
}

/// The byte at an address of a module whose memory is still; 0 where it cannot be
/// read.
pub open spec fn held(a: SfpAnswers, at: usize) -> u8 {
    match (a.read)(Seq::empty(), at, 1) {
        Some(b) => if b.len() > 0 {
            b[0]
        } else {
            0
        },
        None => 0,
    }
}

/// Whether the requests from `before` to `after` write nothing but single bytes
/// from address `lo` up to, without it, address `hi`.
pub open spec fn writes_within(before: SfpTrace, after: SfpTrace, lo: int, hi: int) -> bool {
    &&& before.asked.len() <= after.asked.len()
    &&& after.asked.take(before.asked.len() as int) == before.asked
    &&& after.answers == before.answers
    &&& forall|i: int|
        before.asked.len() <= i < after.asked.len() ==> match #[trigger] after.asked[i] {
            SfpAsk::Write(at, b) => lo <= at < hi && b.len() == 1,
            SfpAsk::Read(_, _) => true,
            _ => false,
        }
}

// ---- the signal path ----

/// The setting of lane `lane`, counted from 0, among the values of a parameter: the
/// number under the name of the parameter followed by the lane counted from 1, or
/// the number that a text there spells.
pub open spec fn setting(values: Vals, param: Seq<char>, lane: int) -> Option<u32> {
    match field(values, param + decimal((lane + 1) as nat)) {
        Some(Val::Number { text, zero, unsigned: Some(n) }) => Some((n % 0x1_0000_0000) as u32),
        Some(Val::Str(s)) => parsed_u32(s),
        _ => None,
    }
}

/// Whether a mask has lane `lane`.
pub open spec fn in_mask(mask: u32, lane: int) -> bool {
    0 <= lane < 8 && (mask >> (lane as u32)) & 1 != 0
}

/// The byte of a register with `bits` bits for each lane that holds lane `lane`.
pub open spec fn byte_of(bits: u32, lane: int) -> int {
    lane * bits / 8
}

/// The bits of lane `lane` in the byte that holds it.
pub open spec fn bits_of(b: u8, bits: u32, lane: int) -> u8 {
    (b >> ((lane * bits % 8) as u8)) & (low_mask(bits) as u8)
}

/// Whether byte `b` of a register holds for each of its lanes the setting where the
/// lane is in the mask, and the bits that `was` held where it is not.
pub open spec fn byte_is_set(
    b: u8,
    was: u8,
    place: int,
    bits: u32,
    mask: u32,
    values: Vals,
    param: Seq<char>,
) -> bool {
    forall|lane: int|
        0 <= lane < 8 && #[trigger] byte_of(bits, lane) == place ==> bits_of(b, bits, lane) == (
        if in_mask(mask, lane) {
            (setting(values, param, lane)->0 & low_mask(bits)) as u8
        } else {
            bits_of(was, bits, lane)
        })
}

proof fn low_masks_are()
    ensures
        low_mask(1) == 1,
        low_mask(2) == 3,
        low_mask(4) == 15,
{
    assert(1u32 << 1u32 == 2) by (bit_vector);
    assert(1u32 << 2u32 == 4) by (bit_vector);
    assert(1u32 << 4u32 == 16) by (bit_vector);
}

/// Packing a lane leaves the bits of the other lanes of its byte alone.
proof fn packing_leaves_other_lanes(b: u8, bits: u32, lane: int, v: u32, other: int)
    requires
        bits == 1 || bits == 2 || bits == 4,
        0 <= lane < 8,
        0 <= other < 8,
        lane != other,
        byte_of(bits, lane) == byte_of(bits, other),
    ensures
        bits_of(packed(b, bits, (lane * bits % 8) as u32, v), bits, other) == bits_of(
            b,
            bits,
            other,
        ),
{
    low_masks_are();
    let s = (lane * bits % 8) as u8;
    let o = (other * bits % 8) as u8;
    let m = low_mask(bits);
    if bits == 1 {
        assert(s != o && s < 8 && o < 8);
        assert((((b & !((1u32 as u8) << s)) | (((v & 1u32) as u8) << s)) >> o) & (1u32 as u8) == (b
            >> o) & (1u32 as u8)) by (bit_vector)
            requires
                s != o && s < 8 && o < 8,
        ;
    } else if bits == 2 {
        assert(s != o && (s == 0 || s == 2 || s == 4 || s == 6) && (o == 0 || o == 2 || o == 4 || o
            == 6));
        assert((((b & !((3u32 as u8) << s)) | (((v & 3u32) as u8) << s)) >> o) & (3u32 as u8) == (b
            >> o) & (3u32 as u8)) by (bit_vector)
            requires
                s != o && (s == 0 || s == 2 || s == 4 || s == 6) && (o == 0 || o == 2 || o == 4 || o
                    == 6),
        ;
    } else {
        assert(s != o && (s == 0 || s == 4) && (o == 0 || o == 4));
        assert((((b & !((15u32 as u8) << s)) | (((v & 15u32) as u8) << s)) >> o) & (15u32 as u8)
            == (b >> o) & (15u32 as u8)) by (bit_vector)
            requires
                s != o && (s == 0 || s == 4) && (o == 0 || o == 4),
        ;
    }
}

/// A packed lane holds its setting.
proof fn packing_sets_the_lane(b: u8, bits: u32, lane: int, v: u32)
    requires
        bits == 1 || bits == 2 || bits == 4,
        0 <= lane < 8,
    ensures
        bits_of(packed(b, bits, (lane * bits % 8) as u32, v), bits, lane) == (v & low_mask(
            bits,
        )) as u8,
{
    assert(lane * bits % 8 + bits <= 8);
    packed_reads_back(b, bits, (lane * bits % 8) as u32, v);
}

/// Whether a list of bytes has one for the address `at`.
spec fn has_byte_at(acc: Seq<(usize, u8)>, at: int) -> bool {
    exists|i: int| 0 <= i < acc.len() && (#[trigger] acc[i]).0 == at
}

/// What lane `l` of a byte holds after the lanes before `lane` are put in.
spec fn lane_so_far(
    was: u8,
    bits: u32,
    mask: u32,
    values: Vals,
    param: Seq<char>,
    lane: int,
    l: int,
) -> u8 {
    if l < lane && in_mask(mask, l) {
        (setting(values, param, l)->0 & low_mask(bits)) as u8
    } else {
        bits_of(was, bits, l)
    }
}

/// Whether the bytes of a parameter lie in order between its first byte and the
/// one that lane `lane` comes before.
spec fn bytes_in_order(acc: Seq<(usize, u8)>, base: usize, bits: u32, lane: int) -> bool {
    &&& acc.len() > 0 ==> lane > 0
    &&& forall|i: int|
        0 <= i < acc.len() ==> base <= (#[trigger] acc[i]).0 <= base + byte_of(bits, lane - 1)
    &&& forall|i: int, j: int|
        0 <= i < j < acc.len() ==> (#[trigger] acc[i]).0 < (#[trigger] acc[j]).0
}

/// Whether the bytes of a parameter hold what they should after the lanes before
/// `lane`.
spec fn bytes_hold(
    acc: Seq<(usize, u8)>,
    a: SfpAnswers,
    base: usize,
    bits: u32,
    mask: u32,
    values: Vals,
    param: Seq<char>,
    lane: int,
) -> bool {
    forall|i: int, l: int|
        #![trigger acc[i], byte_of(bits, l)]
        0 <= i < acc.len() && 0 <= l < 8 && acc[i].0 == base + byte_of(bits, l) ==> bits_of(
            acc[i].1,
            bits,
            l,
        ) == lane_so_far(held(a, (2048 + acc[i].0) as usize), bits, mask, values, param, lane, l)
}

/// Whether each lane of the mask before `lane` has its byte.
spec fn lanes_have_bytes(
    acc: Seq<(usize, u8)>,
    base: usize,
    bits: u32,
    mask: u32,
    lane: int,
) -> bool {
    forall|l: int|
        #![trigger byte_of(bits, l)]
        0 <= l < lane && in_mask(mask, l) ==> has_byte_at(acc, base + byte_of(bits, l))
}

spec fn bytes_so_far(
    acc: Seq<(usize, u8)>,
    a: SfpAnswers,
    base: usize,
    bits: u32,
    mask: u32,
    values: Vals,
    param: Seq<char>,
    lane: int,
) -> bool {
    &&& bytes_in_order(acc, base, bits, lane)
    &&& bytes_hold(acc, a, base, bits, mask, values, param, lane)
    &&& lanes_have_bytes(acc, base, bits, mask, lane)
}

proof fn byte_places(bits: u32)
    requires
        bits == 1 || bits == 2 || bits == 4,
    ensures
        forall|l: int, k: int|
            0 <= l <= k < 8 ==> #[trigger] byte_of(bits, l) <= #[trigger] byte_of(bits, k),
        forall|l: int| 0 <= l < 8 ==> 0 <= #[trigger] byte_of(bits, l) < bits,
{
}

proof fn skipped_lane(
    acc: Seq<(usize, u8)>,
    a: SfpAnswers,
    base: usize,
    bits: u32,
    mask: u32,
    values: Vals,
    param: Seq<char>,
    lane: int,
)
    requires
        bits == 1 || bits == 2 || bits == 4,
        0 <= lane < 8,
        bytes_so_far(acc, a, base, bits, mask, values, param, lane),
        !in_mask(mask, lane),
    ensures
        bytes_so_far(acc, a, base, bits, mask, values, param, lane + 1),
{
    byte_places(bits);
    assert(bytes_in_order(acc, base, bits, lane + 1)) by {
        if lane > 0 {
            assert(byte_of(bits, lane - 1) <= byte_of(bits, lane));
        }
    }
    assert forall|i: int, l: int|
        #![trigger acc[i], byte_of(bits, l)]
        0 <= i < acc.len() && 0 <= l < 8 && acc[i].0 == base + byte_of(bits, l) implies bits_of(
        acc[i].1,
        bits,
        l,
    ) == lane_so_far(
        held(a, (2048 + acc[i].0) as usize),
        bits,
        mask,
        values,
        param,
        lane + 1,
        l,
    ) by {}
}

/// The list with the byte of a lane packed: the last one where it is that of the
/// lane, and else a new one that was `fresh`.
spec fn with_lane_packed(
    acc: Seq<(usize, u8)>,
    fresh: u8,
    off: usize,
    bits: u32,
    lane: int,
    v: u32,
) -> Seq<(usize, u8)> {
    let met = acc.len() > 0 && acc.last().0 == off;
    let b = if met {
        acc.last().1
    } else {
        fresh
    };
    if met {
        acc.drop_last()
    } else {
        acc
    }.push((off, packed(b, bits, (lane * bits % 8) as u32, v)))
}

proof fn packed_lane(
    acc: Seq<(usize, u8)>,
    a: SfpAnswers,
    base: usize,
    bits: u32,
    mask: u32,
    values: Vals,
    param: Seq<char>,
    lane: int,
)
    requires
        bits == 1 || bits == 2 || bits == 4,
        base <= 248,
        0 <= lane < 8,
        bytes_so_far(acc, a, base, bits, mask, values, param, lane),
        in_mask(mask, lane),
    ensures
        ({
            let off = (base + byte_of(bits, lane)) as usize;
            bytes_so_far(
                with_lane_packed(
                    acc,
                    held(a, (2048 + off) as usize),
                    off,
                    bits,
                    lane,
                    setting(values, param, lane)->0,
                ),
                a,
                base,
                bits,
                mask,
                values,
                param,
                lane + 1,
            )
        }),
{
    byte_places(bits);
    let v = setting(values, param, lane)->0;
    let off = (base + byte_of(bits, lane)) as usize;
    let was = held(a, (2048 + off) as usize);
    let met = acc.len() > 0 && acc.last().0 == off;
    let b = if met {
        acc.last().1
    } else {
        was
    };
    let kept = if met {
        acc.drop_last()
    } else {
        acc
    };
    let next = with_lane_packed(acc, was, off, bits, lane, v);
    let last = kept.len() as int;
    assert(next == kept.push((off, packed(b, bits, (lane * bits % 8) as u32, v))));
    assert(off == base + byte_of(bits, lane));
    if lane > 0 {
        assert(byte_of(bits, lane - 1) <= byte_of(bits, lane));
    }
    assert forall|i: int| 0 <= i < kept.len() implies (#[trigger] kept[i]).0 < off && kept[i]
        == acc[i] by {
        assert(acc[i].0 <= off);
        if i < acc.len() - 1 {
            assert(acc[i].0 < acc[acc.len() - 1].0);
            assert(acc[acc.len() - 1].0 <= off);
        }
    }
    assert(bytes_in_order(next, base, bits, lane + 1)) by {
        assert forall|i: int, j: int| 0 <= i < j < next.len() implies (#[trigger] next[i]).0 < (
        #[trigger] next[j]).0 by {
            assert(kept[i].0 < off);
            if j < last {
                assert(kept[j] == acc[j]);
                assert(acc[i].0 < acc[j].0);
            }
        }
        assert forall|i: int| 0 <= i < next.len() implies base <= (#[trigger] next[i]).0 <= base
            + byte_of(bits, lane) by {
            if i < last {
                assert(kept[i].0 < off);
            }
        }
    }
    packing_sets_the_lane(b, bits, lane, v);
    assert forall|i: int, l: int|
        #![trigger next[i], byte_of(bits, l)]
        0 <= i < next.len() && 0 <= l < 8 && next[i].0 == base + byte_of(bits, l) implies bits_of(
        next[i].1,
        bits,
        l,
    ) == lane_so_far(
        held(a, (2048 + next[i].0) as usize),
        bits,
        mask,
        values,
        param,
        lane + 1,
        l,
    ) by {
        if i < last {
            assert(kept[i].0 < off);
            assert(next[i] == acc[i]);
            assert(l != lane);
        } else if l != lane {
            packing_leaves_other_lanes(b, bits, lane, v, l);
            if met {
                assert(acc[acc.len() - 1].0 == base + byte_of(bits, l));
            } else if l < lane && in_mask(mask, l) {
                assert(has_byte_at(acc, base + byte_of(bits, l)));
                let j = choose|j: int|
                    0 <= j < acc.len() && (#[trigger] acc[j]).0 == base + byte_of(bits, l);
                assert(kept[j].0 < off);
            }
        }
    }
    assert forall|l: int|
        #![trigger byte_of(bits, l)]
        0 <= l < lane + 1 && in_mask(mask, l) implies has_byte_at(next, base + byte_of(bits, l)) by {
        if base + byte_of(bits, l) == off {
            assert(next[last].0 == off);
        } else {
            assert(has_byte_at(acc, base + byte_of(bits, l)));
            let j = choose|j: int|
                0 <= j < acc.len() && (#[trigger] acc[j]).0 == base + byte_of(bits, l);
            if met && j == acc.len() - 1 {
                assert(false);
            }
            assert(next[j] == acc[j]);
        }
    }
}

proof fn reading_writes_nothing(t: SfpTrace, at: usize, r: SfpTrace)
    requires
        writes_within(t.then_ask(SfpAsk::Read(at, 1)), r, 0, 0),
    ensures
        writes_within(t, r, 0, 0),
{
    let t1 = t.then_ask(SfpAsk::Read(at, 1));
    let n = t.asked.len() as int;
    assert(r.asked.take(n) =~= r.asked.take(n + 1).take(n));
    assert(t1.asked.take(n) =~= t.asked);
    assert(r.asked.take(n + 1)[n] == t1.asked[n]);
}

proof fn bytes_are_set(
    t: SfpTrace,
    base: usize,
    bits: u32,
    mask: u32,
    values: Vals,
    param: Seq<char>,
    lane: nat,
    acc: Seq<(usize, u8)>,
)
    requires
        bits == 1 || bits == 2 || bits == 4,
        128 <= base <= 248,
        lane <= 8,
        still(t.answers),
        bytes_so_far(acc, t.answers, base, bits, mask, values, param, lane as int),
        forall|l: int| lane <= l < 8 && in_mask(mask, l) ==> setting(values, param, l) is Some,
    ensures
        ({
            let r = si_bytes(t, base, bits, mask, values, param, lane, acc);
            &&& r.0 is Some
            &&& bytes_so_far(r.0->0, t.answers, base, bits, mask, values, param, 8)
            &&& writes_within(t, r.1, 0, 0)
        }),
    decreases 8 - lane,
{
    let a = t.answers;
    if lane >= 8 {
        assert(t.asked.take(t.asked.len() as int) =~= t.asked);
    } else if !has_lane(mask, lane) {
        skipped_lane(acc, a, base, bits, mask, values, param, lane as int);
        bytes_are_set(t, base, bits, mask, values, param, lane + 1, acc);
    } else {
        byte_places(bits);
        let v = setting(values, param, lane as int)->0;
        assert(in_mask(mask, lane as int));
        assert(lane_value(values, param, lane) == Some(v));
        let off = (base + lane * bits / 8) as usize;
        assert(off == base + byte_of(bits, lane as int));
        let at = scs(off as int);
        assert(at == 2048 + off);
        let met = acc.len() > 0 && acc.last().0 == off;
        let t1 = if met {
            t
        } else {
            t.then_ask(SfpAsk::Read(at, 1))
        };
        assert((a.read)(t.asked, at, 1) == (a.read)(Seq::empty(), at, 1));
        assert(or_zero(t.byte(at)) == held(a, at));
        let next = with_lane_packed(acc, held(a, at), off, bits, lane as int, v);
        packed_lane(acc, a, base, bits, mask, values, param, lane as int);
        bytes_are_set(t1, base, bits, mask, values, param, lane + 1, next);
        let r = si_bytes(t1, base, bits, mask, values, param, lane + 1, next);
        assert(si_bytes(t, base, bits, mask, values, param, lane, acc) == r);
        if !met {
            reading_writes_nothing(t, at, r.1);
        }
    }
}

/// The requests that write bytes to the staged control set, in order.
spec fn byte_writes(bytes: Seq<(usize, u8)>) -> Seq<SfpAsk> {
    bytes.map_values(|p: (usize, u8)| SfpAsk::Write(scs(p.0 as int), seq![p.1]))
}

proof fn bytes_are_written(t: SfpTrace, bytes: Seq<(usize, u8)>, i: nat, ok: bool)
    requires
        i <= bytes.len(),
    ensures
        si_written(t, bytes, i, ok).1.answers == t.answers,
        si_written(t, bytes, i, ok).1.asked == t.asked + byte_writes(bytes).skip(i as int),
        ok && (forall|h: Seq<SfpAsk>, at: usize, b: Seq<u8>| #[trigger]
            (t.answers.write)(h, at, b)) ==> si_written(t, bytes, i, ok).0,
        !ok ==> !si_written(t, bytes, i, ok).0,
    decreases bytes.len() - i,
{
    let w = byte_writes(bytes);
    if i < bytes.len() {
        let at = scs(bytes[i as int].0 as int);
        let b = seq![bytes[i as int].1];
        let t1 = t.then_ask(SfpAsk::Write(at, b));
        bytes_are_written(t1, bytes, i + 1, ok && t.writes(at, b));
        assert(w[i as int] == SfpAsk::Write(at, b));
        assert(t.asked + w.skip(i as int) =~= t1.asked + w.skip(i as int + 1));
    } else {
        assert(t.asked + w.skip(i as int) =~= t.asked);
    }
}

/// Whether the requests from `before` to `after` put the settings of a parameter,
/// `bits` bits for each lane, in the register at address `lo`: nothing is written
/// outside it, each byte that is written holds for its lanes in the mask their
/// settings and for its other lanes what it held, and no lane in the mask is left
/// out.
pub open spec fn staged_at(
    before: SfpTrace,
    after: SfpTrace,
    lo: int,
    bits: u32,
    mask: u32,
    values: Vals,
    param: Seq<char>,
) -> bool {
    &&& writes_within(before, after, lo, lo + bits)
    &&& forall|i: int|
        before.asked.len() <= i < after.asked.len() ==> match #[trigger] after.asked[i] {
            SfpAsk::Write(at, b) => byte_is_set(
                b[0],
                held(before.answers, at),
                at - lo,
                bits,
                mask,
                values,
                param,
            ),
            _ => true,
        }
    &&& forall|lane: int| #[trigger]
        in_mask(mask, lane) ==> exists|i: int|
            before.asked.len() <= i < after.asked.len() && (#[trigger] after.asked[i] matches SfpAsk::Write(
                at,
                _,
            ) && at == lo + byte_of(bits, lane))
}

proof fn parameter_is_staged(
    t: SfpTrace,
    base: usize,
    bits: u32,
    mask: u32,
    values: Vals,
    param: Seq<char>,
)
    requires
        bits == 1 || bits == 2 || bits == 4,
        128 <= base <= 248,
        still(t.answers),
        forall|l: int| #[trigger] in_mask(mask, l) ==> setting(values, param, l) is Some,
    ensures
        staged_at(
            t,
            si_param_staged(t, base, bits, mask, values, param).1,
            2048 + base,
            bits,
            mask,
            values,
            param,
        ),
        (forall|h: Seq<SfpAsk>, at: usize, b: Seq<u8>| #[trigger] (t.answers.write)(h, at, b))
            ==> si_param_staged(t, base, bits, mask, values, param).0,
{
    let a = t.answers;
    let none: Seq<(usize, u8)> = Seq::empty();
    byte_places(bits);
    bytes_are_set(t, base, bits, mask, values, param, 0, none);
    let r = si_bytes(t, base, bits, mask, values, param, 0, none);
    let bytes = r.0->0;
    bytes_are_written(r.1, bytes, 0, true);
    let after = si_param_staged(t, base, bits, mask, values, param).1;
    let w = byte_writes(bytes);
    assert(w.skip(0) =~= w);
    let n = t.asked.len() as int;
    let k = r.1.asked.len() as int;
    assert(after.asked == r.1.asked + w);
    assert(after.asked.take(n) =~= r.1.asked.take(n));
    assert forall|i: int| n <= i < after.asked.len() implies match #[trigger] after.asked[i] {
        SfpAsk::Write(at, b) => {
            &&& 2048 + base <= at < 2048 + base + bits && b.len() == 1
            &&& byte_is_set(b[0], held(a, at), at - (2048 + base), bits, mask, values, param)
        },
        SfpAsk::Read(_, _) => true,
        _ => false,
    } by {
        if i < k {
            assert(after.asked[i] == r.1.asked[i]);
        } else {
            let j = i - k;
            assert(after.asked[i] == w[j]);
            let off = bytes[j].0;
            let b = bytes[j].1;
            assert(base <= off <= base + byte_of(bits, 7));
            assert(scs(off as int) == 2048 + off);
            let place = off - base;
            assert forall|lane: int|
                0 <= lane < 8 && #[trigger] byte_of(bits, lane) == place implies bits_of(
                b,
                bits,
                lane,
            ) == (if in_mask(mask, lane) {
                (setting(values, param, lane)->0 & low_mask(bits)) as u8
            } else {
                bits_of(held(a, (2048 + off) as usize), bits, lane)
            }) by {
                assert(bytes[j].0 == base + byte_of(bits, lane));
            }
        }
    }
    assert forall|lane: int| #[trigger] in_mask(mask, lane) implies exists|i: int|
        n <= i < after.asked.len() && (#[trigger] after.asked[i] matches SfpAsk::Write(at, _) && at
            == 2048 + base + byte_of(bits, lane)) by {
        assert(has_byte_at(bytes, base + byte_of(bits, lane)));
        let j = choose|j: int|
            0 <= j < bytes.len() && (#[trigger] bytes[j]).0 == base + byte_of(bits, lane);
        assert(after.asked[k + j] == w[j]);
        assert(scs(bytes[j].0 as int) == 2048 + bytes[j].0);
    }
}

proof fn parameters_differ()
    ensures
        "CDREnableRx"@.len() == 11,
        "OutputEqPreCursorTargetRx"@.len() == 25,
        "OutputEqPostCursorTargetRx"@.len() == 26,
        "OutputAmplitudeTargetRx"@.len() == 23,
        "CDREnableTx"@.len() == 11,
        "FixedInputEqTargetTx"@.len() == 20,
        "AdaptiveInputEqRecalledTx"@.len() == 25,
        "AdaptiveInputEqEnableTx"@.len() == 23,
{
    reveal_strlit("CDREnableRx");
    reveal_strlit("OutputEqPreCursorTargetRx");
    reveal_strlit("OutputEqPostCursorTargetRx");
    reveal_strlit("OutputAmplitudeTargetRx");
    reveal_strlit("CDREnableTx");
    reveal_strlit("FixedInputEqTargetTx");
    reveal_strlit("AdaptiveInputEqRecalledTx");
    reveal_strlit("AdaptiveInputEqEnableTx");
}

/// The settings of the receivers land in their registers of page 10h, which begins
/// at address 2048 and has its first byte at 128: clock recovery in byte 161, one
/// bit for each lane, where byte 162 of page 01h tells that the module has it; the
/// pre-cursor in the bytes 162 to 165, the post-cursor in 166 to 169 and the
/// amplitude in 170 to 173, four bits for each lane.
pub proof fn receiver_settings_land_in_their_registers(
    t: SfpTrace,
    param: Seq<char>,
    mask: u32,
    values: Vals,
)
    requires
        still(t.answers),
        forall|l: int| #[trigger] in_mask(mask, l) ==> setting(values, param, l) is Some,
    ensures
        ({
            let (ok, after) = rx_staged(t, param, mask, values);
            let t1 = t.then_ask(SfpAsk::Read(290, 1));
            &&& param == "OutputEqPreCursorTargetRx"@ ==> staged_at(
                t,
                after,
                (2048 + 162) as int,
                4,
                mask,
                values,
                param,
            )
            &&& param == "OutputEqPostCursorTargetRx"@ ==> staged_at(
                t,
                after,
                (2048 + 166) as int,
                4,
                mask,
                values,
                param,
            )
            &&& param == "OutputAmplitudeTargetRx"@ ==> staged_at(
                t,
                after,
                (2048 + 170) as int,
                4,
                mask,
                values,
                param,
            )
            &&& param == "CDREnableRx"@ && held(t.answers, 290) & 1 != 0 ==> staged_at(
                t1,
                after,
                (2048 + 161) as int,
                1,
                mask,
                values,
                param,
            )
            &&& param == "CDREnableRx"@ && held(t.answers, 290) & 1 == 0 ==> ok && after == t1
            &&& param != "OutputEqPreCursorTargetRx"@ && param != "OutputEqPostCursorTargetRx"@
                && param != "OutputAmplitudeTargetRx"@ && param != "CDREnableRx"@ ==> !ok && after
                == t
        }),
{
    parameters_differ();
    parameter_is_staged(t, 162, 4, mask, values, param);
    parameter_is_staged(t, 166, 4, mask, values, param);
    parameter_is_staged(t, 170, 4, mask, values, param);
    let t1 = t.then_ask(SfpAsk::Read(290, 1));
    parameter_is_staged(t1, 161, 1, mask, values, param);
    assert((t.answers.read)(t.asked, 290, 1) == (t.answers.read)(Seq::empty(), 290, 1));
    assert(or_zero(t.byte(290)) == held(t.answers, 290));
    let b = held(t.answers, 290);
    assert(b & 0x01 == b & 1);
}

/// The settings of the transmitters land in their registers of page 10h: the
/// enable of the adaptive equalizer in byte 153, one bit for each lane, its recall
/// in the bytes 154 and 155, two bits for each lane, the fixed equalizer in 156 to
/// 159, four bits for each lane, and clock recovery in byte 160, one bit for each
/// lane, where byte 161 of page 01h tells that the module has it.
pub proof fn transmitter_settings_land_in_their_registers(
    t: SfpTrace,
    param: Seq<char>,
    mask: u32,
    values: Vals,
)
    requires
        still(t.answers),
        forall|l: int| #[trigger] in_mask(mask, l) ==> setting(values, param, l) is Some,
    ensures
        ({
            let (ok, after) = tx_staged(t, param, mask, values);
            let t1 = t.then_ask(SfpAsk::Read(289, 1));
            &&& param == "AdaptiveInputEqEnableTx"@ ==> staged_at(
                t,
                after,
                (2048 + 153) as int,
                1,
                mask,
                values,
                param,
            )
            &&& param == "AdaptiveInputEqRecalledTx"@ ==> staged_at(
                t,
                after,
                (2048 + 154) as int,
                2,
                mask,
                values,
                param,
            )
            &&& param == "FixedInputEqTargetTx"@ ==> staged_at(
                t,
                after,
                (2048 + 156) as int,
                4,
                mask,
                values,
                param,
            )
            &&& param == "CDREnableTx"@ && held(t.answers, 289) & 1 != 0 ==> staged_at(
                t1,
                after,
                (2048 + 160) as int,
                1,
                mask,
                values,
                param,
            )
            &&& param == "CDREnableTx"@ && held(t.answers, 289) & 1 == 0 ==> ok && after == t1
            &&& param != "AdaptiveInputEqEnableTx"@ && param != "AdaptiveInputEqRecalledTx"@ && param
                != "FixedInputEqTargetTx"@ && param != "CDREnableTx"@ ==> !ok && after == t
        }),
{
    parameters_differ();
    parameter_is_staged(t, 153, 1, mask, values, param);
    parameter_is_staged(t, 154, 2, mask, values, param);
    parameter_is_staged(t, 156, 4, mask, values, param);
    let t1 = t.then_ask(SfpAsk::Read(289, 1));
    parameter_is_staged(t1, 160, 1, mask, values, param);
    assert((t.answers.read)(t.asked, 289, 1) == (t.answers.read)(Seq::empty(), 289, 1));
    assert(or_zero(t.byte(289)) == held(t.answers, 289));
    let b = held(t.answers, 289);
    assert(b & 0x01 == b & 1);
}

proof fn missing_setting_ends_it(
    t: SfpTrace,
    base: usize,
    bits: u32,
    mask: u32,
    values: Vals,
    param: Seq<char>,
    lane: nat,
    acc: Seq<(usize, u8)>,
    l: int,
)
    requires
        lane <= l < 8,
        in_mask(mask, l),
        setting(values, param, l) is None,
    ensures
        si_bytes(t, base, bits, mask, values, param, lane, acc).0 is None,
        writes_within(t, si_bytes(t, base, bits, mask, values, param, lane, acc).1, 0, 0),
    decreases 8 - lane,
{
    assert(t.asked.take(t.asked.len() as int) =~= t.asked);
    assert(lane_value(values, param, l as nat) is None);
    if !has_lane(mask, lane) {
        missing_setting_ends_it(t, base, bits, mask, values, param, lane + 1, acc, l);
    } else if let Some(v) = lane_value(values, param, lane) {
        let off = (base + lane * bits / 8) as usize;
        let shift = (lane * bits % 8) as u32;
        let at = scs(off as int);
        let met = acc.len() > 0 && acc.last().0 == off;
        let b = if met {
            acc.last().1
        } else {
            or_zero(t.byte(at))
        };
        let t1 = if met {
            t
        } else {
            t.then_ask(SfpAsk::Read(at, 1))
        };
        let next = if met {
            acc.drop_last()
        } else {
            acc
        }.push((off, packed(b, bits, shift, v)));
        missing_setting_ends_it(t1, base, bits, mask, values, param, lane + 1, next, l);
        if !met {
            reading_writes_nothing(
                t,
                at,
                si_bytes(t1, base, bits, mask, values, param, lane + 1, next).1,
            );
        }
    }
}

/// Where a lane in the mask has no setting, staging a parameter fails and writes
/// nothing.
pub proof fn missing_setting_stages_nothing(
    t: SfpTrace,
    base: usize,
    bits: u32,
    mask: u32,
    values: Vals,
    param: Seq<char>,
    lane: int,
)
    requires
        in_mask(mask, lane),
        setting(values, param, lane) is None,
    ensures
        !si_param_staged(t, base, bits, mask, values, param).0,
        writes_within(t, si_param_staged(t, base, bits, mask, values, param).1, 0, 0),
{
    missing_setting_ends_it(t, base, bits, mask, values, param, 0, Seq::empty(), lane);
}

/// Whether one trace goes on from another.
pub open spec fn goes_on_from(before: SfpTrace, after: SfpTrace) -> bool {
    &&& after.answers == before.answers
    &&& before.asked.len() <= after.asked.len()
    &&& after.asked.take(before.asked.len() as int) == before.asked
}

proof fn going_on(a: SfpTrace, b: SfpTrace, c: SfpTrace)
    requires
        goes_on_from(a, b),
        goes_on_from(b, c),
    ensures
        goes_on_from(a, c),
{
    assert(c.asked.take(a.asked.len() as int) =~= c.asked.take(b.asked.len() as int).take(
        a.asked.len() as int,
    ));
}

proof fn asking_goes_on(t: SfpTrace, a: SfpAsk)
    ensures
        goes_on_from(t, t),
        goes_on_from(t, t.then_ask(a)),
{
    assert(t.asked.take(t.asked.len() as int) =~= t.asked);
    assert(t.then_ask(a).asked.take(t.asked.len() as int) =~= t.asked);
}

proof fn bytes_go_on(
    t: SfpTrace,
    base: usize,
    bits: u32,
    mask: u32,
    values: Vals,
    param: Seq<char>,
    lane: nat,
    acc: Seq<(usize, u8)>,
)
    ensures
        goes_on_from(t, si_bytes(t, base, bits, mask, values, param, lane, acc).1),
    decreases 8 - lane,
{
    asking_goes_on(t, SfpAsk::Info);
    if lane < 8 {
        if !has_lane(mask, lane) {
            bytes_go_on(t, base, bits, mask, values, param, lane + 1, acc);
        } else if let Some(v) = lane_value(values, param, lane) {
            let off = (base + lane * bits / 8) as usize;
            let shift = (lane * bits % 8) as u32;
            let at = scs(off as int);
            let met = acc.len() > 0 && acc.last().0 == off;
            let b = if met {
                acc.last().1
            } else {
                or_zero(t.byte(at))
            };
            let t1 = if met {
                t
            } else {
                t.then_ask(SfpAsk::Read(at, 1))
            };
            let next = if met {
                acc.drop_last()
            } else {
                acc
            }.push((off, packed(b, bits, shift, v)));
            asking_goes_on(t, SfpAsk::Read(at, 1));
            bytes_go_on(t1, base, bits, mask, values, param, lane + 1, next);
            going_on(t, t1, si_bytes(t1, base, bits, mask, values, param, lane + 1, next).1);
        }
    }
}

proof fn parameter_goes_on(
    t: SfpTrace,
    base: usize,
    bits: u32,
    mask: u32,
    values: Vals,
    param: Seq<char>,
)
    ensures
        goes_on_from(t, si_param_staged(t, base, bits, mask, values, param).1),
{
    let r = si_bytes(t, base, bits, mask, values, param, 0, Seq::empty());
    bytes_go_on(t, base, bits, mask, values, param, 0, Seq::empty());
    if let Some(bytes) = r.0 {
        bytes_are_written(r.1, bytes, 0, true);
        let e = si_written(r.1, bytes, 0, true).1;
        assert(e.asked.take(r.1.asked.len() as int) =~= r.1.asked);
        going_on(t, r.1, e);
    }
}

proof fn side_goes_on(t: SfpTrace, param: Seq<char>, mask: u32, values: Vals)
    ensures
        goes_on_from(t, rx_staged(t, param, mask, values).1),
        goes_on_from(t, tx_staged(t, param, mask, values).1),
{
    parameter_goes_on(t, 162, 4, mask, values, param);
    parameter_goes_on(t, 166, 4, mask, values, param);
    parameter_goes_on(t, 170, 4, mask, values, param);
    parameter_goes_on(t, 153, 1, mask, values, param);
    parameter_goes_on(t, 154, 2, mask, values, param);
    parameter_goes_on(t, 156, 4, mask, values, param);
    asking_goes_on(t, SfpAsk::Read(290, 1));
    asking_goes_on(t, SfpAsk::Read(289, 1));
    let r = t.then_ask(SfpAsk::Read(290, 1));
    let x = t.then_ask(SfpAsk::Read(289, 1));
    parameter_goes_on(r, 161, 1, mask, values, param);
    parameter_goes_on(x, 160, 1, mask, values, param);
    going_on(t, r, si_param_staged(r, 161, 1, mask, values, param).1);
    going_on(t, x, si_param_staged(x, 160, 1, mask, values, param).1);
}

/// Whether a parameter was staged from `at` on, on the way from `before` to
/// `after`.
pub open spec fn staged_from(
    before: SfpTrace,
    at: SfpTrace,
    after: SfpTrace,
    param: Seq<char>,
    mask: u32,
    values: Vals,
    rx: bool,
) -> bool {
    let r = if rx {
        rx_staged(at, param, mask, values)
    } else {
        tx_staged(at, param, mask, values)
    };
    goes_on_from(before, at) && r.0 && goes_on_from(r.1, after)
}

/// Whether a parameter was staged on the way from `before` to `after`.
pub open spec fn staged_between(
    before: SfpTrace,
    after: SfpTrace,
    param: Seq<char>,
    mask: u32,
    values: Vals,
    rx: bool,
) -> bool {
    exists|at: SfpTrace| #[trigger] staged_from(before, at, after, param, mask, values, rx)
}

proof fn side_stages_each(
    t: SfpTrace,
    si: Seq<(Seq<char>, Vals)>,
    mask: u32,
    rx: bool,
    i: nat,
    k: int,
)
    requires
        i <= si.len(),
        side_staged(t, si, mask, rx, i).0,
        i <= k < si.len(),
        on_side(si[k].0, rx),
    ensures
        staged_between(t, side_staged(t, si, mask, rx, i).1, si[k].0, mask, si[k].1, rx),
        goes_on_from(t, side_staged(t, si, mask, rx, i).1),
    decreases si.len() - i,
{
    let (param, values) = si[i as int];
    asking_goes_on(t, SfpAsk::Info);
    if !on_side(param, rx) {
        side_stages_each(t, si, mask, rx, i + 1, k);
    } else {
        let r = if rx {
            rx_staged(t, param, mask, values)
        } else {
            tx_staged(t, param, mask, values)
        };
        side_goes_on(t, param, mask, values);
        sides_go_on(r.1, si, mask, rx, i + 1);
        let end = side_staged(t, si, mask, rx, i).1;
        going_on(t, r.1, end);
        if k > i {
            side_stages_each(r.1, si, mask, rx, i + 1, k);
            let s = choose|s: SfpTrace| #[trigger]
                staged_from(r.1, s, end, si[k].0, mask, si[k].1, rx);
            going_on(t, r.1, s);
            assert(staged_from(t, s, end, si[k].0, mask, si[k].1, rx));
        } else {
            assert(staged_from(t, t, end, si[k].0, mask, si[k].1, rx));
        }
    }
}

proof fn sides_go_on(t: SfpTrace, si: Seq<(Seq<char>, Vals)>, mask: u32, rx: bool, i: nat)
    ensures
        goes_on_from(t, side_staged(t, si, mask, rx, i).1),
    decreases si.len() - i,
{
    asking_goes_on(t, SfpAsk::Info);
    if i < si.len() {
        let (param, values) = si[i as int];
        if !on_side(param, rx) {
            sides_go_on(t, si, mask, rx, i + 1);
        } else {
            let r = if rx {
                rx_staged(t, param, mask, values)
            } else {
                tx_staged(t, param, mask, values)
            };
            side_goes_on(t, param, mask, values);
            if r.0 {
                sides_go_on(r.1, si, mask, rx, i + 1);
                going_on(t, r.1, side_staged(r.1, si, mask, rx, i + 1).1);
            }
        }
    }
}

/// Staging that succeeds leaves out no parameter: each whose name ends in Rx was
/// staged as one of the receivers and each whose name ends in Tx as one of the
/// transmitters.
pub proof fn every_parameter_is_staged(
    t: SfpTrace,
    si: Seq<(Seq<char>, Vals)>,
    mask: u32,
    k: int,
)
    requires
        si_staged(t, si, mask).0,
        0 <= k < si.len(),
    ensures
        without_suffix(si[k].0, "Rx"@) is Some ==> staged_between(
            t,
            si_staged(t, si, mask).1,
            si[k].0,
            mask,
            si[k].1,
            true,
        ),
        without_suffix(si[k].0, "Tx"@) is Some ==> staged_between(
            t,
            si_staged(t, si, mask).1,
            si[k].0,
            mask,
            si[k].1,
            false,
        ),
{
    let r = side_staged(t, si, mask, true, 0);
    let end = si_staged(t, si, mask).1;
    sides_go_on(t, si, mask, true, 0);
    sides_go_on(r.1, si, mask, false, 0);
    if without_suffix(si[k].0, "Rx"@) is Some {
        side_stages_each(t, si, mask, true, 0, k);
        let s = choose|s: SfpTrace| #[trigger]
            staged_from(t, s, r.1, si[k].0, mask, si[k].1, true);
        going_on(rx_staged(s, si[k].0, mask, si[k].1).1, r.1, end);
        assert(staged_from(t, s, end, si[k].0, mask, si[k].1, true));
    }
    if without_suffix(si[k].0, "Tx"@) is Some {
        side_stages_each(r.1, si, mask, false, 0, k);
        let s = choose|s: SfpTrace| #[trigger]
            staged_from(r.1, s, end, si[k].0, mask, si[k].1, false);
        going_on(t, r.1, s);
        assert(staged_from(t, s, end, si[k].0, mask, si[k].1, false));
    }
}

proof fn writing_goes_on(a: SfpTrace, b: SfpTrace, c: SfpTrace, lo: int, hi: int)
    requires
        writes_within(a, b, lo, hi),
        writes_within(b, c, lo, hi),
    ensures
        writes_within(a, c, lo, hi),
{
    let n = a.asked.len() as int;
    let k = b.asked.len() as int;
    assert(c.asked.take(n) =~= c.asked.take(k).take(n));
    assert forall|i: int| n <= i < c.asked.len() implies match #[trigger] c.asked[i] {
        SfpAsk::Write(at, x) => lo <= at < hi && x.len() == 1,
        SfpAsk::Read(_, _) => true,
        _ => false,
    } by {
        if i < k {
            assert(c.asked.take(k)[i] == b.asked[i]);
        }
    }
}

proof fn parameter_writes_within(
    t: SfpTrace,
    base: usize,
    bits: u32,
    mask: u32,
    values: Vals,
    param: Seq<char>,
)
    requires
        bits == 1 || bits == 2 || bits == 4,
        128 <= base <= 248,
        still(t.answers),
    ensures
        writes_within(
            t,
            si_param_staged(t, base, bits, mask, values, param).1,
            2048 + base,
            2048 + base + bits,
        ),
{
    if forall|l: int| #[trigger] in_mask(mask, l) ==> setting(values, param, l) is Some {
        parameter_is_staged(t, base, bits, mask, values, param);
    } else {
        let l = choose|l: int| #[trigger] in_mask(mask, l) && setting(values, param, l) is None;
        missing_setting_stages_nothing(t, base, bits, mask, values, param, l);
    }
}

proof fn receiver_writes_within(t: SfpTrace, param: Seq<char>, mask: u32, values: Vals)
    requires
        still(t.answers),
    ensures
        writes_within(t, rx_staged(t, param, mask, values).1, 2209, 2222),
{
    assert(t.asked.take(t.asked.len() as int) =~= t.asked);
    parameter_writes_within(t, 162, 4, mask, values, param);
    parameter_writes_within(t, 166, 4, mask, values, param);
    parameter_writes_within(t, 170, 4, mask, values, param);
    let t1 = t.then_ask(SfpAsk::Read(290, 1));
    parameter_writes_within(t1, 161, 1, mask, values, param);
    let after = si_param_staged(t1, 161, 1, mask, values, param).1;
    assert(t1.asked.take(t.asked.len() as int) =~= t.asked);
    assert(writes_within(t, t1, 2209, 2222));
    assert(writes_within(t1, after, 2209, 2222));
    writing_goes_on(t, t1, after, 2209, 2222);
}

proof fn receivers_write_within(
    t: SfpTrace,
    si: Seq<(Seq<char>, Vals)>,
    mask: u32,
    i: nat,
)
    requires
        still(t.answers),
    ensures
        writes_within(t, side_staged(t, si, mask, true, i).1, 2209, 2222),
    decreases si.len() - i,
{
    assert(t.asked.take(t.asked.len() as int) =~= t.asked);
    if i < si.len() {
        let (param, values) = si[i as int];
        if !on_side(param, true) {
            receivers_write_within(t, si, mask, i + 1);
        } else {
            receiver_writes_within(t, param, mask, values);
            let r = rx_staged(t, param, mask, values);
            if r.0 {
                receivers_write_within(r.1, si, mask, i + 1);
                writing_goes_on(
                    t,
                    r.1,
                    side_staged(r.1, si, mask, true, i + 1).1,
                    2209,
                    2222,
                );
            }
        }
    }
}

/// The receivers are staged before the transmitters: where one of them cannot be
/// staged, staging fails and no register of the transmitters is written.
pub proof fn receivers_come_first(
    t: SfpTrace,
    si: Seq<(Seq<char>, Vals)>,
    mask: u32,
    k: int,
)
    requires
        still(t.answers),
        0 <= k < si.len(),
        without_suffix(si[k].0, "Rx"@) is Some,
        forall|before: SfpTrace| !(#[trigger] rx_staged(before, si[k].0, mask, si[k].1)).0,
    ensures
        !si_staged(t, si, mask).0,
        writes_within(t, si_staged(t, si, mask).1, 2209, 2222),
{
    let r = side_staged(t, si, mask, true, 0);
    if r.0 {
        side_stages_each(t, si, mask, true, 0, k);
        let s = choose|s: SfpTrace| #[trigger]
            staged_from(t, s, r.1, si[k].0, mask, si[k].1, true);
        assert(!rx_staged(s, si[k].0, mask, si[k].1).0);
    }
    receivers_write_within(t, si, mask, 0);
}

// ---- lanes ----

/// The bit of lane `lane` in a byte with one bit for each lane.
pub open spec fn bit_of(b: u8, lane: int) -> u8 {
    (b >> (lane as u8)) & 1
}

/// Whether byte `b` has the bits of the lanes in the mask set or cleared and the
/// others as in `was`.
pub open spec fn lanes_are_switched(b: u8, was: u8, mask: u32, on: bool) -> bool {
    forall|lane: int|
        0 <= lane < 8 ==> #[trigger] bit_of(b, lane) == (if in_mask(mask, lane) {
            if on {
                1
            } else {
                0
            }
        } else {
            bit_of(was, lane)
        })
}

proof fn masked_byte_is_switched(was: u8, mask: u32, on: bool)
    ensures
        lanes_are_switched(with_lanes(was, mask, on, 0), was, mask, on),
{
    with_lanes_is_masked(was, mask);
    let b = with_lanes(was, mask, on, 0);
    assert forall|lane: int| 0 <= lane < 8 implies #[trigger] bit_of(b, lane) == (if in_mask(
        mask,
        lane,
    ) {
        if on {
            1
        } else {
            0
        }
    } else {
        bit_of(was, lane)
    }) by {
        let l = lane as u8;
        let k = lane as u32;
        if on {
            assert(((was | (mask as u8)) >> l) & 1 == if (mask >> k) & 1 != 0 {
                1u8
            } else {
                (was >> l) & 1
            }) by (bit_vector)
                requires
                    l < 8,
                    k == l,
            ;
        } else {
            assert(((was & !(mask as u8)) >> l) & 1 == if (mask >> k) & 1 != 0 {
                0u8
            } else {
                (was >> l) & 1
            }) by (bit_vector)
                requires
                    l < 8,
                    k == l,
            ;
        }
    }
}

/// Switching transmitters reads byte 130 of page 10h and writes it back once, with
/// the bits of the lanes in the mask set for off or cleared for on and the other
/// bits as they were. The answer is that of the write.
pub proof fn transmitters_are_switched(t: SfpTrace, mask: u32, off: bool)
    requires
        still(t.answers),
    ensures
        ({
            let (ok, after) = tx_switched(t, mask, off);
            let t1 = t.then_ask(SfpAsk::Read(2178, 1));
            exists|b: u8|
                {
                    &&& after == #[trigger] t1.then_ask(SfpAsk::Write(2178, seq![b]))
                    &&& ok == t1.writes(2178, seq![b])
                    &&& lanes_are_switched(b, held(t.answers, 2178), mask, off)
                }
        }),
{
    let was = or_zero(t.byte(2178));
    let b = with_lanes(was, mask, off, 0);
    masked_byte_is_switched(was, mask, off);
    assert((t.answers.read)(t.asked, 2178, 1) == (t.answers.read)(Seq::empty(), 2178, 1));
    assert(was == held(t.answers, 2178));
    let t1 = t.then_ask(SfpAsk::Read(2178, 1));
    assert(scs(130) == 2178);
    assert(tx_switched(t, mask, off).1 == t1.then_ask(SfpAsk::Write(2178, seq![b])));
}

proof fn revision_reads_write_nothing(t: SfpTrace, mask: u32, down: bool, lane: nat, b: u8)
    ensures
        writes_within(t, dp_lanes(t, mask, down, lane, b).1, 0, 0),
    decreases 8 - lane,
{
    assert(t.asked.take(t.asked.len() as int) =~= t.asked);
    if lane < 8 {
        if has_lane(mask, lane) {
            let t1 = t.then_ask(SfpAsk::Read(1, 1));
            let b1 = with_lane(b, lane, is_v4(t.byte(1)) == down);
            revision_reads_write_nothing(t1, mask, down, lane + 1, b1);
            reading_writes_nothing(t, 1, dp_lanes(t1, mask, down, lane + 1, b1).1);
        } else {
            revision_reads_write_nothing(t, mask, down, lane + 1, b);
        }
    }
}

/// Whether a module takes a set bit for a data path that is down: one whose
/// revision, in the high half of byte 1, is 4 or later, or cannot be read.
pub open spec fn set_bit_is_down(a: SfpAnswers) -> bool {
    match (a.read)(Seq::empty(), 1, 1) {
        Some(b) => b.len() > 0 ==> b[0] / 16 >= 4,
        None => true,
    }
}

/// Taking data paths down and letting them up writes once, and that to byte 128 of
/// page 10h, the last of all. The bits of the lanes in the mask then tell of down
/// or up in the sense of the module's revision, and the other bits are as they
/// were. The answer is that of the write.
pub proof fn data_paths_are_driven(t: SfpTrace, mask: u32, down: bool)
    requires
        still(t.answers),
    ensures
        ({
            let (ok, after) = dp_driven(t, mask, down);
            exists|before: SfpTrace, b: u8|
                {
                    &&& after == #[trigger] before.then_ask(SfpAsk::Write(2176, seq![b]))
                    &&& writes_within(t, before, 0, 0)
                    &&& ok == before.writes(2176, seq![b])
                    &&& lanes_are_switched(
                        b,
                        held(t.answers, 2176),
                        mask,
                        down == set_bit_is_down(t.answers),
                    )
                }
        }),
{
    let a = t.answers;
    let was = or_zero(t.byte(2176));
    assert((a.read)(t.asked, 2176, 1) == (a.read)(Seq::empty(), 2176, 1));
    assert(was == held(a, 2176));
    let t1 = t.then_ask(SfpAsk::Read(2176, 1));
    let v4 = set_bit_is_down(a);
    assert forall|h: Seq<SfpAsk>|
        is_v4((SfpTrace { answers: a, asked: h }).byte(CMIS_REV_LINEAR)) == v4 by {
        assert((a.read)(h, 1, 1) == (a.read)(Seq::empty(), 1, 1));
        if let Some(b) = (a.read)(h, 1, 1) {
            if b.len() > 0 {
                let r = b[0];
                assert(r >> 4 == r / 16) by (bit_vector);
            }
        }
    }
    dp_lanes_with_steady_revision(t1, mask, down, 0, was, v4);
    masked_byte_is_switched(was, mask, v4 == down);
    revision_reads_write_nothing(t1, mask, down, 0, was);
    let (b, before) = dp_lanes(t1, mask, down, 0, was);
    reading_writes_nothing(t, 2176, before);
    assert(scs(128) == 2176);
    assert(dp_driven(t, mask, down).1 == before.then_ask(SfpAsk::Write(2176, seq![b])));
}

/// Applying staged settings writes byte 143 of page 10h, with the bits of the lanes
/// in the mask set and no other, and nothing else. The answer is that of the write.
pub proof fn settings_are_applied(t: SfpTrace, mask: u32)
    ensures
        ({
            let (ok, after) = init_applied(t, mask);
            exists|b: u8|
                {
                    &&& after == #[trigger] t.then_ask(SfpAsk::Write(2191, seq![b]))
                    &&& ok == t.writes(2191, seq![b])
                    &&& forall|lane: int|
                        0 <= lane < 8 ==> #[trigger] bit_of(b, lane) == (if in_mask(mask, lane) {
                            1u8
                        } else {
                            0u8
                        })
                }
        }),
{
    let b = mask as u8;
    assert forall|lane: int| 0 <= lane < 8 implies #[trigger] bit_of(b, lane) == (if in_mask(
        mask,
        lane,
    ) {
        1u8
    } else {
        0u8
    }) by {
        let l = lane as u8;
        let k = lane as u32;
        assert(((mask as u8) >> l) & 1 == if (mask >> k) & 1 != 0 {
            1u8
        } else {
            0u8
        }) by (bit_vector)
            requires
                l < 8,
                k == l,
        ;
    }
    assert(scs(143) == 2191);
    assert(init_applied(t, mask).1 == t.then_ask(SfpAsk::Write(2191, seq![b])));
}

/// Whether byte `c` is the configuration of a lane: the application in the high
/// half, the first lane of its data path in the three bits below it, and whether
/// the host sets the signal path in the lowest.
pub open spec fn configures(c: u8, appl: u32, first: int, ec: u32) -> bool {
    c == appl * 16 + first * 2 + ec
}

/// Whether `first` is the first lane in a mask.
pub open spec fn is_first(mask: u32, first: int) -> bool {
    in_mask(mask, first) && forall|l: int| 0 <= l < first ==> !in_mask(mask, l)
}

/// Whether a request writes the configuration of a lane of the mask.
pub open spec fn stages_a_lane(ask: SfpAsk, mask: u32, appl: u32, first: int, ec: u32) -> bool {
    ask matches SfpAsk::Write(at, b) && b.len() == 1 && in_mask(mask, at - 2193) && configures(
        b[0],
        appl,
        first,
        ec,
    )
}

/// Whether a lane is configured on the way from `before` to `after`.
pub open spec fn lane_is_staged(before: SfpTrace, after: SfpTrace, lane: int) -> bool {
    exists|i: int|
        before.asked.len() <= i < after.asked.len() && (#[trigger] after.asked[i] matches SfpAsk::Write(
            at,
            _,
        ) && at == 2193 + lane)
}

proof fn lanes_are_staged(
    t: SfpTrace,
    mask: u32,
    appl: u32,
    ec: u32,
    lane: nat,
    met: Option<nat>,
    ok: bool,
    first: int,
)
    requires
        appl < 16,
        ec < 2,
        is_first(mask, first),
        match met {
            Some(f) => f == first,
            None => lane <= first,
        },
    ensures
        ({
            let (done, after) = appl_staged(t, mask, appl, ec, lane, met, ok);
            &&& goes_on_from(t, after)
            &&& forall|i: int|
                t.asked.len() <= i < after.asked.len() ==> stages_a_lane(
                    #[trigger] after.asked[i],
                    mask,
                    appl,
                    first,
                    ec,
                )
            &&& forall|l: int|
                lane <= l && #[trigger] in_mask(mask, l) ==> lane_is_staged(t, after, l)
            &&& ok && (forall|h: Seq<SfpAsk>, at: usize, b: Seq<u8>| #[trigger]
                (t.answers.write)(h, at, b)) ==> done
        }),
    decreases 8 - lane,
{
    asking_goes_on(t, SfpAsk::Info);
    if lane < 8 {
        if !has_lane(mask, lane) {
            lanes_are_staged(t, mask, appl, ec, lane + 1, met, ok, first);
            assert(!in_mask(mask, lane as int));
        } else {
            assert(in_mask(mask, lane as int));
            let f = match met {
                Some(f) => f,
                None => lane,
            };
            assert(f == first);
            let at = (2193 + lane) as usize;
            assert(scs(145 + lane as int) == at);
            let c = lane_config(appl, f, ec);
            let t1 = t.then_ask(SfpAsk::Write(at, seq![c]));
            let ok1 = ok && t.writes(at, seq![c]);
            asking_goes_on(t, SfpAsk::Write(at, seq![c]));
            lanes_are_staged(t1, mask, appl, ec, lane + 1, Some(f), ok1, first);
            let after = appl_staged(t, mask, appl, ec, lane, met, ok).1;
            going_on(t, t1, after);
            let k = f as u32;
            assert(((appl << 4) | (k << 1) | ec) as u8 == (appl * 16 + k * 2 + ec) as u8
                && appl * 16 + k * 2 + ec < 256) by (bit_vector)
                requires
                    appl < 16,
                    k < 8,
                    ec < 2,
            ;
            assert(configures(c, appl, first, ec));
            let n = t.asked.len() as int;
            assert(t1.asked[n] == SfpAsk::Write(at, seq![c]));
            assert(after.asked.take(n + 1)[n] == after.asked[n]);
            assert(after.asked[n] == SfpAsk::Write(at, seq![c]));
            assert(stages_a_lane(after.asked[n], mask, appl, first, ec));
            assert forall|l: int| lane <= l && #[trigger] in_mask(mask, l) implies lane_is_staged(
                t,
                after,
                l,
            ) by {
                if l > lane {
                    assert(lane_is_staged(t1, after, l));
                    let i = choose|i: int|
                        t1.asked.len() <= i < after.asked.len() && (
                        #[trigger] after.asked[i] matches SfpAsk::Write(at, _) && at == 2193 + l);
                    assert(t.asked.len() <= i);
                }
            }
        }
    }
}

/// Staging an application writes one byte for each lane in the mask, from byte 145
/// of page 10h on, and nothing else: the application, the first lane in the mask
/// and whether the host sets the signal path. It succeeds where every write does.
pub proof fn application_is_staged(t: SfpTrace, mask: u32, appl: u32, ec: u32, first: int)
    requires
        appl < 16,
        ec < 2,
        is_first(mask, first),
    ensures
        ({
            let (done, after) = appl_staged(t, mask, appl, ec, 0, None, true);
            &&& goes_on_from(t, after)
            &&& forall|i: int|
                t.asked.len() <= i < after.asked.len() ==> stages_a_lane(
                    #[trigger] after.asked[i],
                    mask,
                    appl,
                    first,
                    ec,
                )
            &&& forall|l: int| #[trigger] in_mask(mask, l) ==> lane_is_staged(t, after, l)
            &&& (forall|h: Seq<SfpAsk>, at: usize, b: Seq<u8>| #[trigger]
                (t.answers.write)(h, at, b)) ==> done
        }),
{
    lanes_are_staged(t, mask, appl, ec, 0, None, true, first);
}

proof fn applications_are_read(t: SfpTrace, n: nat)
    requires
        still(t.answers),
        n <= 8,
    ensures
        active_appls(t, n).0.len() == n,
        active_appls(t, n).1.answers == t.answers,
        forall|i: int|
            0 <= i < n ==> {
                let (name, value) = #[trigger] active_appls(t, n).0[i];
                &&& name == "ActiveAppSelLane"@ + decimal((i + 1) as nat)
                &&& value matches Val::Number { text, zero, unsigned: Some(v) } && v == held(
                    t.answers,
                    (2382 + i) as usize,
                ) / 16 && text == decimal(v as nat) && zero == (v == 0)
            },
    decreases n,
{
    if n > 0 {
        applications_are_read(t, (n - 1) as nat);
        let r = active_appls(t, (n - 1) as nat);
        let at = (2382 + (n - 1)) as usize;
        assert(active_config_at((n - 1) as nat) == at);
        assert((t.answers.read)(r.1.asked, at, 1) == (t.answers.read)(Seq::empty(), at, 1));
        let b = held(t.answers, at);
        assert(b >> 4 == b / 16 && 0u8 / 16 == 0) by (bit_vector);
        assert(active_appl(r.1.byte(at)) == b / 16);
        reveal_strlit("");
        assert(lane_field("ActiveAppSelLane"@, n, ""@) =~= "ActiveAppSelLane"@ + decimal(n));
        let e = active_appls(t, n).0;
        assert forall|i: int| 0 <= i < n implies {
            let (name, value) = #[trigger] e[i];
            &&& name == "ActiveAppSelLane"@ + decimal((i + 1) as nat)
            &&& value matches Val::Number { text, zero, unsigned: Some(v) } && v == held(
                t.answers,
                (2382 + i) as usize,
            ) / 16 && text == decimal(v as nat) && zero == (v == 0)
        } by {
            if i < n - 1 {
                assert(e[i] == r.0[i]);
            }
        }
    }
}

/// The active application of each of the eight lanes is the high half of its byte
/// of page 11h, from byte 206 on.
pub proof fn active_applications_are_read(t: SfpTrace)
    requires
        still(t.answers),
    ensures
        active_appls(t, 8).0.len() == 8,
        forall|i: int|
            0 <= i < 8 ==> {
                let (name, value) = #[trigger] active_appls(t, 8).0[i];
                &&& name == "ActiveAppSelLane"@ + decimal((i + 1) as nat)
                &&& value matches Val::Number { text, zero, unsigned: Some(v) } && v == held(
                    t.answers,
                    (2382 + i) as usize,
                ) / 16 && text == decimal(v as nat) && zero == (v == 0)
            },
{
    applications_are_read(t, 8);
}

/// A host lane has under its new name the value that it had under the old one, and
/// the default where it had none.
pub proof fn renamed_lane_keeps_its_value(
    f: Vals,
    from: Seq<char>,
    from_end: Seq<char>,
    to: Seq<char>,
    to_end: Seq<char>,
    default: Val,
    i: int,
)
    requires
        0 <= i < 8,
    ensures
        ({
            let all = lanes_renamed(Some(f), from, from_end, to, to_end, default);
            let n = decimal((i + 1) as nat);
            &&& all.len() == 8
            &&& all[i].0 == to + n + to_end
            &&& field(f, from + n + from_end) matches Some(v) ==> all[i].1 == v
            &&& field(f, from + n + from_end) is None ==> all[i].1 == default
            &&& lanes_renamed(None, from, from_end, to, to_end, default)[i] == (
                to + n + to_end,
                default,
            )
        }),
{
}

// ---- durations ----

/// The durations of the codes: one and five milliseconds, ten times as long two
/// codes on up to ten seconds, and from one minute on as many minutes as the codes
/// from the first on have milliseconds. Only the low half of a code counts, and
/// its two last values are reserved.
pub proof fn durations_grow_with_their_codes(code: u8)
    ensures
        code % 16 == 0 ==> timing_ms(code) == 1,
        code % 16 == 1 ==> timing_ms(code) == 5,
        2 <= code % 16 <= 8 ==> timing_ms(code) == 10 * timing_ms((code - 2) as u8),
        9 <= code % 16 <= 13 ==> timing_ms(code) == 60_000 * timing_ms((code - 9) as u8),
        14 <= code % 16 ==> timing_ms(code) == 0,
{
    assert(forall|c: u8| #[trigger] (c & 0x0f) == c % 16) by (bit_vector);
}

/// The duration in the high half of a byte is that of the byte shifted down, and
/// the one in the low half ignores the high one. A byte that cannot be read tells
/// none.
pub proof fn durations_are_halves(b: u8)
    ensures
        nibble_ms(Some(b), true) == timing_ms(b / 16),
        nibble_ms(Some(b), false) == timing_ms(b % 16),
        nibble_ms(None, true) == 0 && nibble_ms(None, false) == 0,
        init_ms(Some(b)) == (if timing_ms(b % 16) <= 1000 {
            10 * timing_ms(b % 16)
        } else {
            timing_ms(b % 16) as int
        }),
        init_ms(None) == 0,
{
    assert(b >> 4 == b / 16 && b & 0x0f == b % 16) by (bit_vector);
}

/// Whether the module tells by bit 7 of byte 2 that its memory has no pages.
pub open spec fn tells_flat(a: SfpAnswers) -> bool {
    held(a, 2) >= 128
}

/// A duration that a module with pages advertises is a half of a byte of page 01h.
/// One without pages has no durations.
pub proof fn durations_are_advertised(c: CmisView, offset: usize, high: bool)
    requires
        still(c.t.answers),
        c.flat is None,
        c.t.byte(2) is Some,
        offset < 1000,
    ensures
        ({
            let b = held(c.t.answers, (128 + offset) as usize);
            let (ms, after) = duration(c, offset, high);
            &&& tells_flat(c.t.answers) ==> ms == 0 && after.flat == Some(true)
            &&& !tells_flat(c.t.answers) ==> {
                &&& after.flat == Some(false)
                &&& high && after.t.byte((128 + offset) as usize) is Some ==> ms == timing_ms(
                    b / 16,
                )
                &&& !high && after.t.byte((128 + offset) as usize) is Some ==> ms == timing_ms(
                    b % 16,
                )
                &&& after.t.byte((128 + offset) as usize) is None ==> ms == 0
            }
        }),
{
    let a = c.t.answers;
    let at = (128 + offset) as usize;
    let after = duration(c, offset, high).1;
    let t1 = c.t.then_ask(SfpAsk::Read(2, 1));
    assert((a.read)(c.t.asked, 2, 1) == (a.read)(Seq::empty(), 2, 1));
    assert((a.read)(t1.asked, at, 1) == (a.read)(Seq::empty(), at, 1));
    assert((a.read)(after.t.asked, at, 1) == (a.read)(Seq::empty(), at, 1));
    let f = held(a, 2);
    assert((f & 0x80 != 0) == (f >= 128)) by (bit_vector);
    durations_are_halves(held(a, at));
    assert(linear(1, offset as nat) == at);
}

// ---- the laser ----

/// Whether `q` is the integer nearest to `n / d`, the one away from zero where two
/// are as near.
pub open spec fn nearest(n: int, d: int, q: int) -> bool {
    &&& -d <= 2 * (n - d * q) <= d
    &&& 2 * (n - d * q) == d ==> n < 0
    &&& 2 * (n - d * q) == -d ==> n > 0
}

proof fn quotient_is_nearest(n: int, d: int, q: int)
    requires
        d == 8 || d == 25 || d == 100,
    ensures
        nearest(n, d, rounded_quotient(n, d)),
        nearest(n, d, q) ==> q == rounded_quotient(n, d),
{
    let r = rounded_quotient(n, d);
    if d == 8 {
        assert(d * q == 8 * q && d * r == 8 * r);
        assert(r == if n >= 0 {
            (2 * n + 8) / 16
        } else {
            -((-2 * n + 8) / 16)
        });
    } else if d == 25 {
        assert(d * q == 25 * q && d * r == 25 * r);
        assert(r == if n >= 0 {
            (2 * n + 25) / 50
        } else {
            -((-2 * n + 25) / 50)
        });
    } else {
        assert(d * q == 100 * q && d * r == 100 * r);
        assert(r == if n >= 0 {
            (2 * n + 100) / 200
        } else {
            -((-2 * n + 100) / 200)
        });
    }
}

/// The width of a grid in eighths of a GHz, from 3.125 GHz on.
pub open spec fn eighths_of_a_ghz(code: u8) -> int {
    if code == 0 {
        25
    } else if code == 1 {
        50
    } else if code == 2 {
        100
    } else if code == 3 {
        200
    } else if code == 4 {
        400
    } else if code == 5 {
        800
    } else {
        264
    }
}

/// The channels of a grid lie a width apart, with channel 0 at 193.1 THz, rounded
/// to the nearest GHz. Those of the two wide grids are counted in steps of 25 GHz,
/// and the wider one begins three of them higher.
pub proof fn channels_lie_a_width_apart(code: u8, channel: int)
    ensures
        code <= 6 ==> nearest(
            channel * eighths_of_a_ghz(code),
            8,
            channel_freq(code, channel) - 193_100,
        ),
        code == 7 ==> channel_freq(code, channel) == 193_100 + 25 * channel,
        code == 8 ==> channel_freq(code, channel) == 193_175 + 25 * channel,
        code > 8 ==> channel_freq(code, channel) == 0,
{
    quotient_is_nearest(channel * eighths_of_a_ghz(code), 8, 0);
}

/// Whether a channel is the one that a frequency has on a grid of 75, 100 or
/// 150 GHz.
pub open spec fn is_channel(freq: int, grid: u32, ch: int) -> bool {
    ||| grid == 75 && nearest(freq - 193_100, 25, ch) && ch % 3 == 0
    ||| grid == 100 && nearest(freq - 193_100, 100, ch)
    ||| grid == 150 && nearest(freq - 193_100, 25, ch + 3) && ch % 6 == 0
}

/// Whether a module has a grid. The widest is never asked about.
pub open spec fn has_grid(grids: u8, grid: u32) -> bool {
    &&& grid == 75 ==> grids / 128 % 2 == 1
    &&& grid == 100 ==> grids / 32 % 2 == 1
}

/// The code that a grid is chosen by.
pub open spec fn code_of(grid: u32) -> u8 {
    if grid == 75 {
        0x70
    } else if grid == 100 {
        0x50
    } else {
        0x80
    }
}

/// The signed number in two bytes, the high one first.
pub open spec fn number_in(b: Seq<u8>) -> int {
    let n = b[0] * 256 + b[1];
    if n >= 0x8000 {
        n - 0x1_0000
    } else {
        n
    }
}

proof fn words_are_numbers(a: u8, b: u8)
    ensures
        be_i16(a, b) == number_in(seq![a, b]),
{
    let w = ((a as u16) << 8) | (b as u16);
    assert(w == a * 256 + b) by (bit_vector)
        requires
            w == ((a as u16) << 8) | (b as u16),
    ;
    let v = w as i16;
    assert(v == (if w < 0x8000 {
        w as int
    } else {
        w - 0x1_0000
    })) by (bit_vector)
        requires
            v == w as i16,
    ;
}

/// What a module tells of its laser, and the requests by which it is read.
pub proof fn laser_range_is_read(t: SfpTrace, grids: u8, low: Seq<u8>, high: Seq<u8>)
    requires
        t.byte(640) == Some(grids),
        t.then_ask(SfpAsk::Read(640, 1)).read(670, 2) == Some(low),
        t.then_ask(SfpAsk::Read(640, 1)).then_ask(SfpAsk::Read(670, 2)).read(672, 2) == Some(high),
        low.len() == 2,
        high.len() == 2,
    ensures
        freq_config(t).0 == (
            grids as i64,
            number_in(low) as i64,
            number_in(high) as i64,
            (193_100 + 25 * number_in(low)) as i64,
            (193_100 + 25 * number_in(high)) as i64,
        ),
        freq_config(t).1 == t.then_ask(SfpAsk::Read(640, 1)).then_ask(
            SfpAsk::Read(670, 2),
        ).then_ask(SfpAsk::Read(672, 2)),
{
    words_are_numbers(low[0], low[1]);
    words_are_numbers(high[0], high[1]);
    assert(linear(4, 128) == 640 && linear(4, 158) == 670 && linear(4, 160) == 672);
}

/// A laser is tuned to the channel of the frequency where the module has the grid
/// and the channel: the grid is written to byte 128 of page 12h and the channel,
/// as a signed number, to bytes 136 and 137. A channel out of range leaves the
/// laser where it was.
pub proof fn laser_is_tuned(t: SfpTrace, freq: int, grid: u32, grids: u8, low: int, high: int, ch: int)
    requires
        freq_config(t).0.0 == grids,
        freq_config(t).0.1 == low,
        freq_config(t).0.2 == high,
        is_channel(freq, grid, ch),
        has_grid(grids, grid),
        -0x8000 <= low,
        high <= 0x7fff,
    ensures
        ({
            let t0 = freq_config(t).1;
            let t1 = t0.then_ask(SfpAsk::Write(2432, seq![code_of(grid)]));
            let (ok, after) = laser_tuned(t, freq, grid);
            &&& low <= ch <= high && t0.writes(2432, seq![code_of(grid)]) ==> exists|b: Seq<u8>|
                {
                    &&& after == #[trigger] t1.then_ask(SfpAsk::Write(2440, b))
                    &&& ok == t1.writes(2440, b)
                    &&& b.len() == 2 && number_in(b) == ch
                }
            &&& !(low <= ch <= high && t0.writes(2432, seq![code_of(grid)])) ==> !ok && after == t1
        }),
{
    let g = grids as i64;
    assert((g >> 7) & 1 == 1 <==> g / 128 % 2 == 1) by (bit_vector)
        requires
            0 <= g < 256,
    ;
    assert((g >> 5) & 1 == 1 <==> g / 32 % 2 == 1) by (bit_vector)
        requires
            0 <= g < 256,
    ;
    let x = freq - 193_100;
    quotient_is_nearest(x, 25, ch);
    quotient_is_nearest(x, 25, ch + 3);
    quotient_is_nearest(x, 100, ch);
    assert(linear(0x12, 128) == 2432 && linear(0x12, 136) == 2440);
    assert(freq_channel(g, freq, grid) == Some((code_of(grid), ch)));
    let t0 = freq_config(t).1;
    let t1 = t0.then_ask(SfpAsk::Write(2432, seq![code_of(grid)]));
    if low <= ch <= high && t0.writes(2432, seq![code_of(grid)]) {
        let b = be_bytes(ch as i16);
        be_bytes_read_back(ch as i16);
        words_are_numbers(b[0], b[1]);
        assert(seq![b[0], b[1]] =~= b);
        assert(laser_tuned(t, freq, grid).1 == t1.then_ask(SfpAsk::Write(2440, b)));
    }
}

/// A frequency off the grids, and one on a grid that the module lacks, is refused
/// with nothing written.
pub proof fn frequency_off_the_grid_is_refused(t: SfpTrace, freq: int, grid: u32, grids: u8)
    requires
        freq_config(t).0.0 == grids,
        (forall|ch: int| !#[trigger] is_channel(freq, grid, ch)) || !has_grid(grids, grid),
    ensures
        laser_tuned(t, freq, grid) == (false, freq_config(t).1),
{
    let g = grids as i64;
    assert((g >> 7) & 1 == 1 <==> g / 128 % 2 == 1) by (bit_vector)
        requires
            0 <= g < 256,
    ;
    assert((g >> 5) & 1 == 1 <==> g / 32 % 2 == 1) by (bit_vector)
        requires
            0 <= g < 256,
    ;
    let x = freq - 193_100;
    quotient_is_nearest(x, 25, 0);
    quotient_is_nearest(x, 100, 0);
    assert(!is_channel(freq, grid, rounded_quotient(x, 25)) || !has_grid(grids, grid));
    assert(!is_channel(freq, grid, rounded_quotient(x, 25) - 3) || !has_grid(grids, grid));
    assert(!is_channel(freq, grid, rounded_quotient(x, 100)) || !has_grid(grids, grid));
}

// ---- registers ----

/// Where the registers lie that are read and written whole: a byte from 128 on of
/// page `p` has the address `128 * p` and its number, and one below 128 its number
/// alone.
pub proof fn registers_lie_in_their_pages(p: nat, n: nat)
    ensures
        n >= 128 || p > 0 ==> linear(p, n) == 128 * p + n,
        n < 128 ==> linear(0, n) == n,
        scs(APPLY_DPINIT_OFFSET as int) == 128 * 0x10 + 143,
        linear(TUNABLE_LASER_PAGE as nat, TX_CONFIG_POWER_OFFSET as nat) == 128 * 0x12 + 200,
        linear(TUNABLE_LASER_PAGE as nat, GRID_SPACING_OFFSET as nat) == 128 * 0x12 + 128,
        linear(TUNABLE_LASER_PAGE as nat, LASER_CONFIG_CHANNEL_OFFSET as nat) == 128 * 0x12 + 136,
        linear(CCMIS_CFG_SUPPORT_PAGE as nat, MIN_PROG_POWER_OFFSET as nat) == 128 * 4 + 198,
        linear(CCMIS_CFG_SUPPORT_PAGE as nat, MAX_PROG_POWER_OFFSET as nat) == 128 * 4 + 200,
        linear(DURATIONS_PAGE as nat, DP_INIT_DEINIT_OFFSET as nat) == 128 + 144,
        linear(DURATIONS_PAGE as nat, MODULE_PWR_OFFSET as nat) == 128 + 167,
        linear(DURATIONS_PAGE as nat, DP_TX_TURN_OFFSET as nat) == 128 + 168,
{
}

/// The number in a register of two bytes is signed, the high byte first; it is 0
/// where the bytes cannot be read.
pub proof fn register_numbers_are_signed(t: SfpTrace, at: usize)
    ensures
        t.read(at, 2) matches Some(b) && b.len() == 2 ==> word_or_zero(t, at) == number_in(
            t.read(at, 2)->0,
        ),
        t.read(at, 2) is None ==> word_or_zero(t, at) == 0,
{
    if let Some(b) = t.read(at, 2) {
        if b.len() == 2 {
            words_are_numbers(b[0], b[1]);
        }
    }
}

// ---- identity and status ----

/// The identity that is kept, or that the module gives when it is asked now.
pub open spec fn identity_told(c: CmisView) -> Option<Vals> {
    match c.info {
        Some(r) => r.fields,
        None => match (c.t.answers.info)(c.t.asked) {
            Some(r) => r.fields,
            None => None,
        },
    }
}

/// A module whose flat memory bit cannot be read has pages where its status tells
/// its state or else its identity tells its revision, and none where neither does.
/// What is found out this way is not kept.
pub proof fn state_or_revision_tells_of_pages(c: CmisView)
    requires
        c.flat is None,
        c.t.byte(2) is None,
        c.info is None,
    ensures
        ({
            let t1 = c.t.then_ask(SfpAsk::Read(2, 1));
            let t2 = t1.then_ask(SfpAsk::Status);
            let status_fields = match t1.status() {
                Some(r) => r.fields,
                None => None,
            };
            let info_fields = match t2.info() {
                Some(r) => r.fields,
                None => None,
            };
            let told_state = status_fields matches Some(f) && field(f, "module_state"@) is Some;
            let told_rev = info_fields matches Some(f) && field(f, "cmis_rev"@) is Some;
            let (flat, after) = flat_memory(c);
            &&& flat == (!told_state && !told_rev)
            &&& after.flat is None
            &&& told_state ==> after.t == t2
            &&& !told_state ==> after.t == t2.then_ask(SfpAsk::Info)
        }),
{
}

/// The flat memory bit is the highest of byte 2, and it is kept once it was read.
pub proof fn flat_bit_is_the_highest(c: CmisView, b: u8)
    requires
        c.flat is None,
        c.t.byte(2) == Some(b),
    ensures
        flat_memory(c).0 == (b >= 128),
        flat_memory(c).1.flat == Some(b >= 128),
        flat_memory(c).1.t == c.t.then_ask(SfpAsk::Read(2, 1)),
{
    assert((b & 0x80 != 0) == (b >= 128)) by (bit_vector);
}

/// An advertisement is the text that the identity has for it, rewritten. There is
/// none where the identity has none or says that there is none.
pub proof fn advertisement_is_in_the_identity(c: CmisView, f: Vals)
    requires
        identity_told(c) == Some(f),
    ensures
        ({
            let told = field(f, "application_advertisement"@);
            let (text, after) = advertisement(c);
            &&& told matches Some(Val::Str(s)) ==> (s != "N/A"@ ==> text == parsed_repr(s))
            &&& told == Some(Val::Str("N/A"@)) ==> text is None
            &&& !(told matches Some(Val::Str(_))) ==> text is None
            &&& c.info is Some ==> after == c
            &&& c.info is None ==> after.t == c.t.then_ask(SfpAsk::Info)
        }),
{
}

/// A text of the identity or the status is the one that stands there, and the
/// default where there is none.
pub proof fn texts_have_defaults(f: Vals, name: Seq<char>, s: Seq<char>, default: Seq<char>)
    ensures
        field(f, name) == Some(Val::Str(s)) ==> object_text_or(Some(f), name, default) == s,
        !(field(f, name) matches Some(Val::Str(_))) ==> object_text_or(Some(f), name, default)
            == default,
        object_text_or(None, name, default) == default,
{
}

/// The identity is that which the module gave when it was first asked, and it is
/// kept.
pub proof fn identity_is_kept(c: CmisView)
    requires
        c.info is None,
    ensures
        identity(c).0 == identity_told(c),
        identity(c).1.info == (c.t.answers.info)(c.t.asked),
        identity(c).1.t == c.t.then_ask(SfpAsk::Info),
{
}

/// A setting is a number, of which the low 32 bits count, or a text that spells one;
/// no other value is a setting.
pub proof fn settings_are_numbers(v: Val, n: u32)
    ensures
        v matches Val::Number { unsigned: Some(k), .. } ==> (k == n ==> val_u32(v) == Some(n)),
        v == Val::Str(decimal(n as nat)) ==> val_u32(v) == Some(n),
        v matches Val::Str(s) ==> (parsed_u32(s) is None ==> val_u32(v) is None),
        v is Null || v is Bool || v is Nested ==> val_u32(v) is None,
        v matches Val::Number { unsigned: None, .. } ==> val_u32(v) is None,
{
    decimal_reads_back(n as nat);
    signs_are_parsed(decimal(n as nat));
}

} // verus!
