//! What the sending client does for each of its receivers and messages.

use crate::crypto::base64_bytes;
use crate::hybrid::{carries, key_in};
use crate::ids::uuid_chars;
use crate::sender::{
    batch_end_of, correlation_of, encrypts, key_of_queue, keyed, message_id_of, reachable,
    routing_key_of, wait_after, with_builtins, with_fields, EncryptError, EncryptedMessage,
    MessageConfig, PipelineModel, PlainMessage, SentModel,
};
use crate::sender_run::{retry_action, turned_to_retries, ActionModel, RunModel};
use crate::seqs::{lemma_filter_members, lemma_filter_push};
use crate::text::{decimal, replaced, trimmed};
use crate::text_laws::law_trimming_twice_is_trimming_once;
use vstd::arithmetic::power2::lemma_pow2_unfold;
use vstd::prelude::*;
use vstd::utf8::*;

verus! {

/// A content is encrypted for every receiver whose key file is there and holds 32
/// bytes in Base64, with white space around them or not, as long as the content is
/// one that the cipher takes: once for each of them, in their order, and for
/// nobody else.
pub proof fn law_every_receiver_with_a_key_is_reached(
    receivers: Seq<(Seq<char>, Option<Seq<char>>)>,
    content: Seq<char>,
)
    ensures
        ({
            let reached = reachable(receivers, content);
            let has_key = |r: (Seq<char>, Option<Seq<char>>)|
                {
                    &&& r.1 is Some
                    &&& base64_bytes(trimmed(r.1->0)) is Ok
                    &&& base64_bytes(trimmed(r.1->0))->Ok_0.len() == 32
                    &&& encode_utf8(content).len() <= 0x3f_ffff_ff80
                };
            &&& reached.len() == receivers.filter(has_key).len()
            &&& forall|k: int|
                0 <= k < reached.len() ==> {
                    let r = receivers.filter(has_key)[k];
                    (#[trigger] reached[k]) == (r.0, trimmed(r.1->0))
                }
            &&& forall|i: int|
                0 <= i < receivers.len() && has_key(#[trigger] receivers[i]) ==> reached.contains(
                    (receivers[i].0, trimmed(receivers[i].1->0)),
                )
        }),
{
    let has_key = |r: (Seq<char>, Option<Seq<char>>)|
        {
            &&& r.1 is Some
            &&& base64_bytes(trimmed(r.1->0)) is Ok
            &&& base64_bytes(trimmed(r.1->0))->Ok_0.len() == 32
            &&& encode_utf8(content).len() <= 0x3f_ffff_ff80
        };
    lemma_reached(receivers, content, has_key);
    lemma_filter_members(receivers, has_key);
    let reached = reachable(receivers, content);
    let kept = receivers.filter(has_key);
    assert forall|i: int|
        0 <= i < receivers.len() && has_key(#[trigger] receivers[i]) implies reached.contains(
        (receivers[i].0, trimmed(receivers[i].1->0)),
    ) by {
        assert(receivers.contains(receivers[i]));
        assert(kept.contains(receivers[i]));
        let k = choose|k: int| 0 <= k < kept.len() && kept[k] == receivers[i];
        assert(reached[k] == (kept[k].0, trimmed(kept[k].1->0)));
    }
}

proof fn lemma_reached(
    receivers: Seq<(Seq<char>, Option<Seq<char>>)>,
    content: Seq<char>,
    has_key: spec_fn((Seq<char>, Option<Seq<char>>)) -> bool,
)
    requires
        forall|r: (Seq<char>, Option<Seq<char>>)| #[trigger]
            has_key(r) <==> {
                &&& r.1 is Some
                &&& base64_bytes(trimmed(r.1->0)) is Ok
                &&& base64_bytes(trimmed(r.1->0))->Ok_0.len() == 32
                &&& encode_utf8(content).len() <= 0x3f_ffff_ff80
            },
    ensures
        ({
            let reached = reachable(receivers, content);
            let kept = receivers.filter(has_key);
            &&& reached.len() == kept.len()
            &&& forall|k: int|
                0 <= k < reached.len() ==> (#[trigger] reached[k]) == (
                    kept[k].0,
                    trimmed(kept[k].1->0),
                )
        }),
    decreases receivers.len(),
{
    if receivers.len() == 0 {
        assert(receivers.filter(has_key) =~= Seq::<(Seq<char>, Option<Seq<char>>)>::empty());
    } else {
        let rest = receivers.drop_last();
        let last = receivers.last();
        lemma_reached(rest, content, has_key);
        lemma_filter_push(rest, last, has_key);
        assert(rest.push(last) =~= receivers);
        if let Some(file) = last.1 {
            law_trimming_twice_is_trimming_once(file);
            assert(key_in(trimmed(file)) is Ok <==> base64_bytes(trimmed(file)) is Ok
                && base64_bytes(trimmed(file))->Ok_0.len() == 32);
        }
        assert(has_key(last) == has_key(last));
        let before = reachable(rest, content);
        let reached = reachable(receivers, content);
        let kept = receivers.filter(has_key);
        assert forall|k: int| 0 <= k < reached.len() implies (#[trigger] reached[k]) == (
            kept[k].0,
            trimmed(kept[k].1->0),
        ) by {
            if k < before.len() {
                assert(reached[k] == before[k]);
            }
        }
    }
}

proof fn lemma_key_of_queue(
    bindings: Seq<(Seq<char>, Seq<char>, Seq<char>)>,
    queue: Seq<char>,
    i: int,
)
    requires
        0 <= i < bindings.len(),
        bindings[i].0 == queue,
        forall|j: int| i < j < bindings.len() ==> (#[trigger] bindings[j]).0 != queue,
    ensures
        key_of_queue(bindings, queue) == Some(bindings[i].2),
    decreases bindings.len(),
{
    if i < bindings.len() - 1 {
        let rest = bindings.drop_last();
        assert(bindings[bindings.len() - 1].0 != queue);
        assert forall|j: int| i < j < rest.len() implies (#[trigger] rest[j]).0 != queue by {
            assert(rest[j] == bindings[j]);
        }
        lemma_key_of_queue(rest, queue, i);
    }
}

proof fn lemma_no_key_of_queue(
    bindings: Seq<(Seq<char>, Seq<char>, Seq<char>)>,
    queue: Seq<char>,
)
    requires
        forall|j: int| 0 <= j < bindings.len() ==> (#[trigger] bindings[j]).0 != queue,
    ensures
        key_of_queue(bindings, queue) is None,
    decreases bindings.len(),
{
    if bindings.len() > 0 {
        let rest = bindings.drop_last();
        assert(bindings[bindings.len() - 1].0 != queue);
        assert forall|j: int| 0 <= j < rest.len() implies (#[trigger] rest[j]).0 != queue by {
            assert(rest[j] == bindings[j]);
        }
        lemma_no_key_of_queue(rest, queue);
    }
}

/// Messages for a receiver go under the routing key by which its queue, named
/// after it with `_queue`, was bound last; where no binding names that queue, under
/// the receiver's name with `_key`.
pub proof fn law_receiver_is_routed_by_the_binding_of_its_queue(
    bindings: Seq<(Seq<char>, Seq<char>, Seq<char>)>,
    receiver: Seq<char>,
    i: int,
)
    requires
        -1 <= i < bindings.len(),
        i >= 0 ==> bindings[i].0 == receiver + "_queue"@,
        forall|j: int| i < j < bindings.len() ==> (#[trigger] bindings[j]).0 != receiver
            + "_queue"@,
    ensures
        routing_key_of(bindings, receiver) == (if i >= 0 {
            bindings[i].2
        } else {
            receiver + "_key"@
        }),
{
    if i >= 0 {
        lemma_key_of_queue(bindings, receiver + "_queue"@, i);
    } else {
        lemma_no_key_of_queue(bindings, receiver + "_queue"@);
    }
}

/// The identifier of a message for a receiver is made of the sender's name, the
/// message's own identifier and the receiver's name, with dashes between them: two
/// receivers get the same message under different identifiers.
pub proof fn law_receivers_get_different_identifiers(
    sender: Seq<char>,
    correlation: Seq<char>,
    a: Seq<char>,
    b: Seq<char>,
)
    ensures
        message_id_of(sender, correlation, a) == sender + "-"@ + correlation + "-"@ + a,
        message_id_of(sender, correlation, a) == message_id_of(sender, correlation, b) <==> a == b,
{
    let prefix = sender + "-"@ + correlation + "-"@;
    assert((prefix + a).skip(prefix.len() as int) =~= a);
    assert((prefix + b).skip(prefix.len() as int) =~= b);
}

/// Further fields are filled in one after the other, each at every place that
/// names it in braces; every field is filled in.
pub proof fn law_every_field_is_filled_in(text: Seq<char>, fields: Seq<(Seq<char>, Seq<char>)>)
    ensures
        with_fields(text, fields) == fields.fold_left(
            text,
            |t: Seq<char>, f: (Seq<char>, Seq<char>)| replaced(t, "{"@ + f.0 + "}"@, f.1),
        ),
    decreases fields.len(),
{
    if fields.len() > 0 {
        law_every_field_is_filled_in(text, fields.drop_last());
    }
}

/// The built-in placeholders are filled in in this order: the sender's name, the
/// message's identifier, the time and the message's number.
pub proof fn law_builtin_placeholders_are_filled_in(
    template: Seq<char>,
    sender: Seq<char>,
    correlation: Seq<char>,
    timestamp: Seq<char>,
    number: nat,
)
    ensures
        with_builtins(template, sender, correlation, timestamp, number) == seq![
            ("{sender_id}"@, sender),
            ("{correlation_id}"@, correlation),
            ("{timestamp}"@, timestamp),
            ("{seq}"@, decimal(number)),
        ].fold_left(
            template,
            |t: Seq<char>, f: (Seq<char>, Seq<char>)| replaced(t, f.0, f.1),
        ),
{
    let all = seq![
        ("{sender_id}"@, sender),
        ("{correlation_id}"@, correlation),
        ("{timestamp}"@, timestamp),
        ("{seq}"@, decimal(number)),
    ];
    let f = |t: Seq<char>, f: (Seq<char>, Seq<char>)| replaced(t, f.0, f.1);
    reveal_with_fuel(Seq::fold_left, 5);
    assert(all.drop_last().drop_last().drop_last().drop_last() =~= Seq::<
        (Seq<char>, Seq<char>),
    >::empty());
    assert(all.drop_last().drop_last().drop_last().last() == all[0]);
    assert(all.drop_last().drop_last().last() == all[1]);
    assert(all.drop_last().last() == all[2]);
    assert(all.last() == all[3]);
}

/// A message that is taken into the window takes one place there, under its
/// identifier; one that is acknowledged leaves the window, or the messages set
/// aside, alone, and gives its place back if it had one; one that could not be
/// written gives its place back and is kept aside as it was.
pub proof fn law_window_moves_one_message(s: PipelineModel, message: SentModel, id: Seq<char>)
    requires
        0 < s.permits < usize::MAX,
        s.pending.dom().disjoint(s.unwritten.dom()),
    ensures
        ({
            let t = s.begun(message);
            &&& t.permits == s.permits - 1
            &&& t.pending == s.pending.insert(message.message_id, message)
            &&& t.unwritten == s.unwritten.remove(message.message_id)
            &&& t.sent == s.sent
        }),
        ({
            let t = s.released(id);
            &&& t.permits == s.permits + (if s.pending.contains_key(id) {
                1int
            } else {
                0
            })
            &&& t.pending == s.pending.remove(id)
            &&& t.unwritten == s.unwritten.remove(id)
            &&& t.sent == s.sent
            &&& t.unsettled() == s.unsettled().remove(id)
        }),
        ({
            let t = s.set_aside(id);
            &&& t.permits == s.permits + (if s.pending.contains_key(id) {
                1int
            } else {
                0
            })
            &&& t.pending == s.pending.remove(id)
            &&& t.unsettled() == s.unsettled()
            &&& t.sent == s.sent
        }),
{
    let t = s.released(id);
    assert(s.pending.dom().contains(id) ==> !s.unwritten.dom().contains(id));
    assert(t.pending =~= s.pending.remove(id));
    assert(t.unwritten =~= s.unwritten.remove(id));
    assert(t.unsettled() =~= s.unsettled().remove(id));
    let u = s.set_aside(id);
    assert(u.pending =~= s.pending.remove(id));
    assert(u.unsettled() =~= s.unsettled());
}

/// The waiting time after a failed attempt is one second at first and doubles from
/// each attempt to the next, as long as it fits.
pub proof fn law_waiting_time_doubles(attempt: u32)
    ensures
        wait_after(0) == 1,
        attempt < 63 ==> wait_after((attempt + 1) as u32) == 2 * wait_after(attempt),
{
    vstd::arithmetic::power2::lemma2_to64();
    vstd::arithmetic::power2::lemma2_to64_rest();
    if attempt < 63 {
        lemma_pow2_unfold((attempt + 1) as nat);
        if attempt + 1 < 63 {
            vstd::arithmetic::power2::lemma_pow2_strictly_increases((attempt + 1) as nat, 63);
        }
    }
}

/// The batches follow one another without a gap up to the last message: each holds
/// as many messages as asked for, or all that are left where those are fewer.
pub proof fn law_batches_cover_all_messages(start: nat, batch_size: nat, num_messages: nat)
    requires
        start < num_messages,
        batch_size > 0,
    ensures
        ({
            let end = batch_end_of(start, batch_size, num_messages);
            &&& start < end <= num_messages
            &&& end < num_messages ==> end == start + batch_size
            &&& end == num_messages ==> num_messages - start <= batch_size
        }),
{
}

/// When a run turns to the messages without an acknowledgement, these are all messages
/// in flight and all that were set aside, each once, and no others.
pub proof fn law_every_unsettled_message_is_sent_once_more(
    before: RunModel,
    after: RunModel,
    retry_limit: u32,
)
    requires
        turned_to_retries(before, after, retry_limit),
        keyed(before.pipeline.pending),
        keyed(before.pipeline.unwritten),
        before.pipeline.pending.dom().disjoint(before.pipeline.unwritten.dom()),
    ensures
        forall|id: Seq<char>| #[trigger]
            before.pipeline.pending.contains_key(id) ==> after.retries.contains(
                before.pipeline.pending[id],
            ),
        forall|id: Seq<char>| #[trigger]
            before.pipeline.unwritten.contains_key(id) ==> after.retries.contains(
                before.pipeline.unwritten[id],
            ),
        forall|i: int|
            0 <= i < after.retries.len() ==> {
                let m = #[trigger] after.retries[i];
                ||| before.pipeline.pending.contains_key(m.message_id)
                    && before.pipeline.pending[m.message_id] == m
                ||| before.pipeline.unwritten.contains_key(m.message_id)
                    && before.pipeline.unwritten[m.message_id] == m
            },
        forall|i: int, j: int|
            0 <= i < j < after.retries.len() ==> (#[trigger] after.retries[i]).message_id != (
            #[trigger] after.retries[j]).message_id,
        after.attempt == 0,
        retry_limit > 0 ==> after.retry_at == 0 && after.failed == 0,
        retry_limit == 0 ==> after.retry_at == after.retries.len(),
{
    let all = before.pipeline.unsettled();
    let order = choose|order: Seq<Seq<char>>| #[trigger]
        order.no_duplicates() && order.to_set() == all.dom() && after.retries == Seq::new(
            order.len(),
            |i: int| all[order[i]],
        );
    assert forall|id: Seq<char>| #[trigger] all.contains_key(id) implies after.retries.contains(
        all[id],
    ) by {
        assert(order.to_set().contains(id));
        let i = choose|i: int| 0 <= i < order.len() && order[i] == id;
        assert(after.retries[i] == all[id]);
    }
    assert forall|id: Seq<char>| #[trigger]
        before.pipeline.pending.contains_key(id) implies after.retries.contains(
        before.pipeline.pending[id],
    ) by {
        assert(before.pipeline.pending.dom().contains(id));
        assert(!before.pipeline.unwritten.dom().contains(id));
        assert(all.contains_key(id));
        assert(all[id] == before.pipeline.pending[id]);
    }
    assert forall|id: Seq<char>| #[trigger]
        before.pipeline.unwritten.contains_key(id) implies after.retries.contains(
        before.pipeline.unwritten[id],
    ) by {
        assert(all.contains_key(id));
        assert(all[id] == before.pipeline.unwritten[id]);
    }
    assert forall|i: int| 0 <= i < after.retries.len() implies {
        let m = #[trigger] after.retries[i];
        ||| before.pipeline.pending.contains_key(m.message_id)
            && before.pipeline.pending[m.message_id] == m
        ||| before.pipeline.unwritten.contains_key(m.message_id)
            && before.pipeline.unwritten[m.message_id] == m
    } && after.retries[i].message_id == order[i] by {
        assert(order.to_set().contains(order[i]));
        assert(all.dom().contains(order[i]));
        assert(after.retries[i] == all[order[i]]);
        if before.pipeline.unwritten.contains_key(order[i]) {
        } else {
            assert(before.pipeline.pending.contains_key(order[i]));
        }
    }
    assert forall|i: int, j: int| 0 <= i < j < after.retries.len() implies (
    #[trigger] after.retries[i]).message_id != (#[trigger] after.retries[j]).message_id by {
        assert(after.retries[i].message_id == order[i]);
        assert(after.retries[j].message_id == order[j]);
    }
}

/// A message is sent once more until it is acknowledged or was sent as often as
/// allowed; then the next one follows, and one that was not acknowledged counts as
/// failed.
pub proof fn law_resending_goes_on_message_by_message(s: RunModel, retry_limit: u32)
    requires
        0 <= s.retry_at < s.retries.len(),
        s.attempt < retry_limit,
        s.failed < u64::MAX,
    ensures
        ({
            let after = s.after_resend(true, retry_limit);
            after.retry_at == s.retry_at + 1 && after.attempt == 0 && after.failed == s.failed
                && after.retries == s.retries && after.pipeline == s.pipeline && after.phase
                == s.phase
        }),
        ({
            let after = s.after_resend(false, retry_limit);
            &&& after.retries == s.retries && after.pipeline == s.pipeline && after.phase == s.phase
            &&& s.attempt + 1 < retry_limit ==> after.retry_at == s.retry_at && after.attempt
                == s.attempt + 1 && after.failed == s.failed
            &&& s.attempt + 1 == retry_limit ==> after.retry_at == s.retry_at + 1 && after.attempt
                == 0 && after.failed == s.failed + 1
        }),
{
}

/// A message that is encrypted for a receiver is addressed to it, under the identifier
/// made of the sender's name, the message's own and the receiver's, and bears the
/// routing key and the time that were given. It is encrypted if and only if the key is
/// one and the content is not longer than the cipher takes.
pub proof fn law_encrypted_message_is_addressed(
    r: Result<EncryptedMessage, EncryptError>,
    message: PlainMessage,
    key_text: Seq<char>,
    receiver: Seq<char>,
    routing_key: Seq<char>,
    sent_time: Seq<char>,
)
    requires
        encrypts(r, message, key_text, receiver, routing_key, sent_time),
    ensures
        r is Ok <==> base64_bytes(trimmed(key_text)) is Ok && base64_bytes(
            trimmed(key_text),
        )->Ok_0.len() == 32 && encode_utf8(message.content@).len() <= 0x3f_ffff_ff80,
        r matches Ok(m) ==> {
            &&& m.message_id@ == message.sender_id@ + "-"@ + message.correlation_id@ + "-"@
                + receiver
            &&& m.receiver_client_id@ == receiver
            &&& m.routing_key@ == routing_key
            &&& m.sent_time@ == sent_time
            &&& carries(
                m.deep_view().envelope,
                base64_bytes(trimmed(key_text))->Ok_0,
                message.content@,
            )
        },
        base64_bytes(trimmed(key_text)) is Err ==> r == Err::<EncryptedMessage, EncryptError>(
            EncryptError::KeyEncoding,
        ),
{
}

/// A message goes by the first eight characters of its identifier's text.
pub proof fn law_message_goes_by_eight_characters(id: u128)
    ensures
        correlation_of(id).len() == 8,
        uuid_chars(id) == correlation_of(id) + uuid_chars(id).skip(8),
{
    assert(uuid_chars(id) =~= uuid_chars(id).take(8) + uuid_chars(id).skip(8));
}

/// While messages are sent once more, the next one in line is; when none is left, the
/// run ends with the number of messages that were written and of those that failed.
pub proof fn law_run_ends_when_no_message_is_left(s: RunModel)
    ensures
        s.retry_at < s.retries.len() ==> retry_action(s) == ActionModel::Resend(
            s.retries[s.retry_at],
        ),
        s.retry_at >= s.retries.len() ==> retry_action(s) == (ActionModel::Finish {
            sent: s.pipeline.sent,
            failed: s.failed,
        }),
{
}

/// A message says what its template says, with the built-in placeholders filled in
/// first, in their order, and then every further field, in its order.
pub proof fn law_template_is_filled_in(
    config: MessageConfig,
    sender: Seq<char>,
    correlation: Seq<char>,
    timestamp: Seq<char>,
    number: nat,
)
    ensures
        config.rendered(sender, correlation, timestamp, number) == (seq![
            ("{sender_id}"@, sender),
            ("{correlation_id}"@, correlation),
            ("{timestamp}"@, timestamp),
            ("{seq}"@, decimal(number)),
        ] + config.extra_fields.deep_view().map_values(
            |f: (Seq<char>, Seq<char>)| ("{"@ + f.0 + "}"@, f.1),
        )).fold_left(
            config.content_template@,
            |t: Seq<char>, f: (Seq<char>, Seq<char>)| replaced(t, f.0, f.1),
        ),
{
    let fields = config.extra_fields.deep_view();
    let first = seq![
        ("{sender_id}"@, sender),
        ("{correlation_id}"@, correlation),
        ("{timestamp}"@, timestamp),
        ("{seq}"@, decimal(number)),
    ];
    let f = |t: Seq<char>, f: (Seq<char>, Seq<char>)| replaced(t, f.0, f.1);
    let base = with_builtins(config.content_template@, sender, correlation, timestamp, number);
    law_builtin_placeholders_are_filled_in(
        config.content_template@,
        sender,
        correlation,
        timestamp,
        number,
    );
    lemma_fields_behind(config.content_template@, first, fields, f, base);
}

proof fn lemma_fields_behind(
    template: Seq<char>,
    first: Seq<(Seq<char>, Seq<char>)>,
    fields: Seq<(Seq<char>, Seq<char>)>,
    f: spec_fn(Seq<char>, (Seq<char>, Seq<char>)) -> Seq<char>,
    base: Seq<char>,
)
    requires
        forall|t: Seq<char>, x: (Seq<char>, Seq<char>)| #[trigger] f(t, x) == replaced(t, x.0, x.1),
        first.fold_left(template, f) == base,
    ensures
        with_fields(base, fields) == (first + fields.map_values(
            |x: (Seq<char>, Seq<char>)| ("{"@ + x.0 + "}"@, x.1),
        )).fold_left(template, f),
    decreases fields.len(),
{
    let named = |x: (Seq<char>, Seq<char>)| ("{"@ + x.0 + "}"@, x.1);
    let all = first + fields.map_values(named);
    if fields.len() == 0 {
        assert(all =~= first);
    } else {
        let rest = fields.drop_last();
        lemma_fields_behind(template, first, rest, f, base);
        assert(all.drop_last() =~= first + rest.map_values(named));
        assert(all.last() == named(fields.last()));
    }
}

} // verus!
