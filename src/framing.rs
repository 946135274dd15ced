//! What the parser makes of a whole byte stream, and the guarantees of the
//! frame format: a serialized frame decodes to its payload, the parser
//! finds the next frame after bytes that hold no prefix, and a frame with
//! one damaged byte is dropped without losing the frame after it.

use vstd::prelude::*;
use crate::crc::{
    checksum, checksum_update, lemma_checksum_detects_byte_change, lemma_checksum_resumable,
    register_fold,
};
use crate::parse::{initial_progress, step_spec, ParserNeeds, Progress};
use crate::types::{be_byte, be_bytes, frame_body, frame_bytes, prefix_seq, MAX_PAYLOAD};

verus! {

/// Feeds `bytes`, first to last, to a parser in state `s`: the state after
/// the last byte, and the payloads delivered on the way, in order.
pub open spec fn feed(s: Progress, bytes: Seq<u8>) -> (Progress, Seq<Seq<u8>>)
    decreases bytes.len(),
{
    if bytes.len() == 0 {
        (s, Seq::empty())
    } else {
        let prev = feed(s, bytes.drop_last());
        let next = step_spec(prev.0, bytes.last());
        (
            next.0,
            match next.1 {
                Some(p) => prev.1.push(p),
                None => prev.1,
            },
        )
    }
}

/// How far a fresh parser's search for the prefix has got after `bytes`: the
/// number of prefix bytes matched at the end, or 4 once a whole prefix has
/// been matched.
pub open spec fn prefix_match(bytes: Seq<u8>) -> nat
    decreases bytes.len(),
{
    if bytes.len() == 0 {
        0
    } else {
        let m = prefix_match(bytes.drop_last());
        if m >= 4 {
            4
        } else if bytes.last() == prefix_seq()[m as int] {
            m + 1
        } else {
            0
        }
    }
}

/// The index of the first position at which `a` and `b` differ (or the
/// length of the shorter one if it is a prefix of the other).
pub open spec fn first_difference(a: Seq<u8>, b: Seq<u8>) -> nat
    decreases a.len(),
{
    if a.len() == 0 || b.len() == 0 || a[0] != b[0] {
        0
    } else {
        1 + first_difference(a.drop_first(), b.drop_first())
    }
}

/// `bytes` with the byte at `position` xor-ed with `mask`.
pub open spec fn flip_byte(bytes: Seq<u8>, position: int, mask: u8) -> Seq<u8> {
    bytes.update(position, bytes[position] ^ mask)
}

/// The checksum bytes of `frame` that follow the first one that disagrees
/// with the checksum of the rest of the frame: after rejecting the frame,
/// the parser reads these while looking for the next prefix.
pub open spec fn after_checksum_mismatch(frame: Seq<u8>) -> Seq<u8> {
    let body = frame.take(frame.len() - 4);
    let sent = frame.skip(frame.len() - 4);
    sent.skip(first_difference(sent, be_bytes(checksum(body))) + 1int)
}

/// The parser state after the first `m` prefix bytes.
spec fn prefix_state(m: nat) -> Progress {
    Progress {
        needs: ParserNeeds::Prefix(m as usize),
        crc: checksum(prefix_seq().take(m as int)),
        ..initial_progress()
    }
}

/// The parser state after the first `k` bytes of the frame carrying
/// `payload`, checksum bytes excepted.
spec fn body_state(payload: Seq<u8>, recipient: u8, counter: u8, k: nat) -> Progress {
    let crc = checksum(frame_body(payload, recipient, counter).take(k as int));
    let n = payload.len();
    if k < 4 {
        Progress { needs: ParserNeeds::Prefix(k as usize), crc, ..initial_progress() }
    } else if k == 4 {
        Progress { needs: ParserNeeds::Recipient, crc, ..initial_progress() }
    } else if k == 5 {
        Progress { needs: ParserNeeds::Counter, recipient, crc, ..initial_progress() }
    } else if k == 6 {
        Progress { needs: ParserNeeds::Length(0), recipient, counter, crc, ..initial_progress() }
    } else if k == 7 {
        Progress {
            needs: ParserNeeds::Length(1),
            recipient,
            counter,
            length: n,
            crc,
            ..initial_progress()
        }
    } else {
        Progress {
            needs: if k - 8 < n {
                ParserNeeds::Payload((k - 8) as usize)
            } else {
                ParserNeeds::Checksum(0)
            },
            recipient,
            counter,
            length: n,
            payload: payload.take(k - 8),
            crc,
        }
    }
}

proof fn lemma_checksum_empty()
    ensures
        checksum(Seq::empty()) == 0,
{
    assert(register_fold(!0u32, Seq::empty()) == !0u32);
    assert(!!0u32 == 0u32) by (bit_vector);
}

/// The checksum of `bytes` extended by one byte.
proof fn lemma_checksum_push(bytes: Seq<u8>, byte: u8)
    ensures
        checksum_update(checksum(bytes), seq![byte]) == checksum(bytes.push(byte)),
{
    lemma_checksum_resumable(0, bytes, seq![byte]);
    assert(bytes + seq![byte] =~= bytes.push(byte));
}

proof fn lemma_feed_push(s: Progress, bytes: Seq<u8>, byte: u8)
    ensures
        feed(s, bytes.push(byte)) == ({
            let prev = feed(s, bytes);
            let next = step_spec(prev.0, byte);
            (
                next.0,
                match next.1 {
                    Some(p) => prev.1.push(p),
                    None => prev.1,
                },
            )
        }),
{
    assert(bytes.push(byte).drop_last() =~= bytes);
}

/// Feeding two byte sequences one after the other is feeding their
/// concatenation.
pub proof fn lemma_feed_append(s: Progress, a: Seq<u8>, b: Seq<u8>)
    ensures
        feed(s, a + b) == (feed(feed(s, a).0, b).0, feed(s, a).1 + feed(feed(s, a).0, b).1),
    decreases b.len(),
{
    let first = feed(s, a);
    if b.len() == 0 {
        assert(a + b =~= a);
        assert(first.1 + Seq::<Seq<u8>>::empty() =~= first.1);
    } else {
        let rest = b.drop_last();
        assert((a + b).drop_last() =~= a + rest);
        assert((a + b).last() == b.last());
        lemma_feed_append(s, a, rest);
        let prev = feed(first.0, rest);
        let next = step_spec(prev.0, b.last());
        match next.1 {
            Some(p) => {
                assert((first.1 + prev.1).push(p) =~= first.1 + prev.1.push(p));
            },
            None => {},
        }
    }
}

proof fn lemma_body_step(payload: Seq<u8>, recipient: u8, counter: u8, k: nat)
    requires
        payload.len() <= MAX_PAYLOAD,
        k < 8 + payload.len(),
    ensures
        step_spec(body_state(payload, recipient, counter, k), frame_body(payload, recipient, counter)[k as int])
            == (body_state(payload, recipient, counter, k + 1), None::<Seq<u8>>),
{
    let body = frame_body(payload, recipient, counter);
    let n = payload.len();
    let byte = body[k as int];
    assert(body.take(k as int).push(byte) =~= body.take(k + 1int));
    lemma_checksum_push(body.take(k as int), byte);
    assert(body.len() == 8 + n);
    if k < 4 {
        assert(byte == prefix_seq()[k as int]);
    } else if k == 4 {
        assert(byte == recipient);
    } else if k == 5 {
        assert(byte == counter);
    } else if k == 6 {
        assert(byte == n as u8);
    } else if k == 7 {
        assert(byte == 0);
        assert(payload.take(0) =~= Seq::<u8>::empty());
    } else {
        assert(byte == payload[k - 8]);
        assert(payload.take(k - 8).push(byte) =~= payload.take(k + 1int - 8));
    }
}

/// Feeding the first `k` bytes of a frame body reaches `body_state(k)`.
proof fn lemma_feed_body_prefix(payload: Seq<u8>, recipient: u8, counter: u8, k: nat)
    requires
        payload.len() <= MAX_PAYLOAD,
        k <= 8 + payload.len(),
    ensures
        feed(initial_progress(), frame_body(payload, recipient, counter).take(k as int)) == (
            body_state(payload, recipient, counter, k),
            Seq::<Seq<u8>>::empty(),
        ),
    decreases k,
{
    let body = frame_body(payload, recipient, counter);
    if k == 0 {
        assert(body.take(0) =~= Seq::<u8>::empty());
        lemma_checksum_empty();
    } else {
        let j = (k - 1) as nat;
        lemma_feed_body_prefix(payload, recipient, counter, j);
        assert(body.take(j as int).push(body[j as int]) =~= body.take(k as int));
        lemma_feed_push(initial_progress(), body.take(j as int), body[j as int]);
        lemma_body_step(payload, recipient, counter, j);
    }
}

/// Feeding a whole frame body leaves the parser waiting for the first
/// checksum byte, with the payload and the body's checksum.
proof fn lemma_feed_body(payload: Seq<u8>, recipient: u8, counter: u8)
    requires
        payload.len() <= MAX_PAYLOAD,
    ensures
        feed(initial_progress(), frame_body(payload, recipient, counter)) == (
            Progress {
                needs: ParserNeeds::Checksum(0),
                recipient,
                counter,
                length: payload.len(),
                payload,
                crc: checksum(frame_body(payload, recipient, counter)),
            },
            Seq::<Seq<u8>>::empty(),
        ),
{
    let body = frame_body(payload, recipient, counter);
    lemma_feed_body_prefix(payload, recipient, counter, 8 + payload.len());
    assert(body.take(body.len() as int) =~= body);
    assert(payload.take(payload.len() as int) =~= payload);
}

/// Checksum bytes that agree with the register move the parser along.
proof fn lemma_feed_checksum_agreeing(s: Progress, sent: Seq<u8>, j: nat)
    requires
        s.needs == ParserNeeds::Checksum(0),
        j <= 3,
        j <= sent.len(),
        forall|i: int| 0 <= i < j ==> sent[i] == be_byte(s.crc, i),
    ensures
        feed(s, sent.take(j as int)) == (
            Progress { needs: ParserNeeds::Checksum(j as usize), ..s },
            Seq::<Seq<u8>>::empty(),
        ),
    decreases j,
{
    if j == 0 {
        assert(sent.take(0) =~= Seq::<u8>::empty());
    } else {
        let i = (j - 1) as nat;
        lemma_feed_checksum_agreeing(s, sent, i);
        assert(sent.take(i as int).push(sent[i as int]) =~= sent.take(j as int));
        lemma_feed_push(s, sent.take(i as int), sent[i as int]);
    }
}

proof fn lemma_first_difference(a: Seq<u8>, b: Seq<u8>)
    requires
        a.len() == b.len(),
        a != b,
    ensures
        first_difference(a, b) < a.len(),
        a[first_difference(a, b) as int] != b[first_difference(a, b) as int],
        forall|i: int| 0 <= i < first_difference(a, b) ==> a[i] == b[i],
    decreases a.len(),
{
    if a.len() == 0 {
        assert(a =~= b);
    } else if a[0] != b[0] {
    } else {
        if a.drop_first() == b.drop_first() {
            assert forall|i: int| 0 <= i < a.len() implies a[i] == b[i] by {
                if i > 0 {
                    assert(a[i] == a.drop_first()[i - 1]);
                    assert(b[i] == b.drop_first()[i - 1]);
                }
            }
            assert(a =~= b);
        }
        lemma_first_difference(a.drop_first(), b.drop_first());
        let d = first_difference(a.drop_first(), b.drop_first());
        assert forall|i: int| 0 <= i < d + 1 implies a[i] == b[i] by {
            if i > 0 {
                assert(a[i] == a.drop_first()[i - 1]);
                assert(b[i] == b.drop_first()[i - 1]);
            }
        }
    }
}

proof fn lemma_be_bytes_injective(u: u32, v: u32)
    requires
        u != v,
    ensures
        be_bytes(u) != be_bytes(v),
{
    if be_bytes(u) == be_bytes(v) {
        assert(be_bytes(u)[0] == be_bytes(v)[0]);
        assert(be_bytes(u)[1] == be_bytes(v)[1]);
        assert(be_bytes(u)[2] == be_bytes(v)[2]);
        assert(be_bytes(u)[3] == be_bytes(v)[3]);
        assert(((u >> 24u32) as u8 == (v >> 24u32) as u8 && (u >> 16u32) as u8 == (v >> 16u32) as u8
            && (u >> 8u32) as u8 == (v >> 8u32) as u8 && (u >> 0u32) as u8 == (v >> 0u32) as u8)
            ==> u == v) by (bit_vector);
    }
}

/// Checksum bytes read after a frame body: when they disagree with the
/// body's checksum, the frame is dropped and the bytes after the first
/// disagreeing one are read as the search for a prefix.
proof fn lemma_feed_checksum_disagreeing(s: Progress, sent: Seq<u8>)
    requires
        s.needs == ParserNeeds::Checksum(0),
        sent.len() == 4,
        sent != be_bytes(s.crc),
    ensures
        ({
            let j = first_difference(sent, be_bytes(s.crc));
            feed(s, sent) == feed(initial_progress(), sent.skip(j + 1int))
        }),
{
    let expected = be_bytes(s.crc);
    lemma_first_difference(sent, expected);
    let j = first_difference(sent, expected);
    assert forall|i: int| 0 <= i < j implies sent[i] == be_byte(s.crc, i) by {
        assert(sent[i] == expected[i]);
    }
    lemma_feed_checksum_agreeing(s, sent, j);
    assert(sent[j as int] != be_byte(s.crc, j as int));
    assert(sent.take(j as int).push(sent[j as int]) =~= sent.take(j + 1int));
    lemma_feed_push(s, sent.take(j as int), sent[j as int]);
    assert(sent =~= sent.take(j + 1int) + sent.skip(j + 1int));
    lemma_feed_append(s, sent.take(j + 1int), sent.skip(j + 1int));
    assert(Seq::<Seq<u8>>::empty() + feed(initial_progress(), sent.skip(j + 1int)).1 =~= feed(
        initial_progress(),
        sent.skip(j + 1int),
    ).1);
}

/// Bytes in which the prefix search never completes leave a fresh parser
/// part way through the prefix, with nothing delivered.
proof fn lemma_feed_unsynced(bytes: Seq<u8>)
    requires
        prefix_match(bytes) < 4,
    ensures
        feed(initial_progress(), bytes) == (prefix_state(prefix_match(bytes)), Seq::<Seq<u8>>::empty()),
    decreases bytes.len(),
{
    if bytes.len() == 0 {
        lemma_checksum_empty();
        assert(prefix_seq().take(0) =~= Seq::<u8>::empty());
    } else {
        let prev = bytes.drop_last();
        let m = prefix_match(prev);
        lemma_feed_unsynced(prev);
        lemma_feed_push(initial_progress(), prev, bytes.last());
        assert(prev.push(bytes.last()) =~= bytes);
        assert(m < 4);
        if bytes.last() == prefix_seq()[m as int] {
            lemma_checksum_push(prefix_seq().take(m as int), bytes.last());
            assert(prefix_seq().take(m as int).push(bytes.last()) =~= prefix_seq().take(m + 1int));
            assert(prefix_match(bytes) == m + 1);
        } else {
            lemma_checksum_empty();
            assert(prefix_seq().take(0) =~= Seq::<u8>::empty());
            assert(prefix_match(bytes) == 0);
        }
    }
}

/// A serialized frame decodes to its payload: a fresh parser fed the wire
/// bytes of the frame carrying `payload` delivers exactly that payload and
/// is ready for the next frame.
pub proof fn lemma_round_trip(payload: Seq<u8>, recipient: u8, counter: u8)
    requires
        payload.len() <= MAX_PAYLOAD,
    ensures
        feed(initial_progress(), frame_bytes(payload, recipient, counter)) == (
            initial_progress(),
            seq![payload],
        ),
{
    let body = frame_body(payload, recipient, counter);
    let sent = be_bytes(checksum(body));
    lemma_feed_body(payload, recipient, counter);
    let s = feed(initial_progress(), body).0;
    lemma_feed_checksum_agreeing(s, sent, 3);
    assert(sent.take(3).push(sent[3]) =~= sent);
    lemma_feed_push(s, sent.take(3), sent[3]);
    lemma_feed_append(initial_progress(), body, sent);
    assert(Seq::<Seq<u8>>::empty() + seq![payload] =~= seq![payload]);
}

/// The parser resynchronises: two frames with bytes between them in which a
/// fresh parser finds no prefix, and which leave no partial prefix behind,
/// decode to the two payloads, in order.
pub proof fn lemma_resync(
    first: Seq<u8>,
    first_recipient: u8,
    first_counter: u8,
    garbage: Seq<u8>,
    second: Seq<u8>,
    second_recipient: u8,
    second_counter: u8,
)
    requires
        first.len() <= MAX_PAYLOAD,
        second.len() <= MAX_PAYLOAD,
        prefix_match(garbage) == 0,
    ensures
        feed(
            initial_progress(),
            frame_bytes(first, first_recipient, first_counter) + garbage + frame_bytes(
                second,
                second_recipient,
                second_counter,
            ),
        ) == (initial_progress(), seq![first, second]),
{
    let f1 = frame_bytes(first, first_recipient, first_counter);
    let f2 = frame_bytes(second, second_recipient, second_counter);
    lemma_round_trip(first, first_recipient, first_counter);
    lemma_round_trip(second, second_recipient, second_counter);
    lemma_feed_unsynced(garbage);
    lemma_checksum_empty();
    assert(prefix_seq().take(0) =~= Seq::<u8>::empty());
    lemma_feed_append(initial_progress(), f1, garbage);
    lemma_feed_append(initial_progress(), f1 + garbage, f2);
    assert(seq![first] + Seq::<Seq<u8>>::empty() + seq![second] =~= seq![first, second]);
}

/// A frame with one damaged payload or checksum byte is dropped with
/// nothing delivered, and the frame right after it still decodes, provided
/// the damaged frame's checksum bytes after the first rejected one leave no
/// partial prefix behind.
pub proof fn lemma_corruption_contained(
    payload: Seq<u8>,
    recipient: u8,
    counter: u8,
    position: int,
    mask: u8,
    next: Seq<u8>,
    next_recipient: u8,
    next_counter: u8,
)
    requires
        payload.len() <= MAX_PAYLOAD,
        next.len() <= MAX_PAYLOAD,
        8 <= position < frame_bytes(payload, recipient, counter).len(),
        mask != 0,
        prefix_match(
            after_checksum_mismatch(
                flip_byte(frame_bytes(payload, recipient, counter), position, mask),
            ),
        ) == 0,
    ensures
        feed(
            initial_progress(),
            flip_byte(frame_bytes(payload, recipient, counter), position, mask) + frame_bytes(
                next,
                next_recipient,
                next_counter,
            ),
        ) == (initial_progress(), seq![next]),
{
    let frame = frame_bytes(payload, recipient, counter);
    let body = frame_body(payload, recipient, counter);
    let n = payload.len();
    let len = 8 + n as int;
    let damaged = flip_byte(frame, position, mask);
    let original = frame[position];
    let value = original ^ mask;
    assert(value != original) by (bit_vector)
        requires
            mask != 0,
            value == original ^ mask,
    ;
    let new_body = damaged.take(len);
    let sent = damaged.skip(len);
    let new_payload = if position < len {
        payload.update(position - 8, value)
    } else {
        payload
    };
    assert(new_body =~= frame_body(new_payload, recipient, counter));
    lemma_feed_body(new_payload, recipient, counter);
    let s = feed(initial_progress(), new_body).0;
    if position < len {
        assert(new_body =~= body.update(position, value));
        lemma_checksum_detects_byte_change(body, position, value);
        assert(sent =~= be_bytes(checksum(body)));
        lemma_be_bytes_injective(checksum(body), checksum(new_body));
    } else {
        assert(new_body =~= body);
        assert(sent[position - len] != be_bytes(checksum(body))[position - len]);
    }
    lemma_feed_checksum_disagreeing(s, sent);
    assert(damaged.len() - 4 == len);
    let tail = after_checksum_mismatch(damaged);
    lemma_feed_unsynced(tail);
    lemma_checksum_empty();
    assert(prefix_seq().take(0) =~= Seq::<u8>::empty());
    assert(damaged =~= new_body + sent);
    lemma_feed_append(initial_progress(), new_body, sent);
    lemma_round_trip(next, next_recipient, next_counter);
    let f2 = frame_bytes(next, next_recipient, next_counter);
    lemma_feed_append(initial_progress(), damaged, f2);
    assert(Seq::<Seq<u8>>::empty() + Seq::<Seq<u8>>::empty() =~= Seq::<Seq<u8>>::empty());
    assert(Seq::<Seq<u8>>::empty() + seq![next] =~= seq![next]);
}

} // verus!
