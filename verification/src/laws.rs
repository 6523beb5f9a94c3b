//! What holds between encoding and decoding.

use crate::error::RuleSetError;
use crate::leaf::{law_leaf_decoded, law_leaf_decodes};
use crate::model::{
    concat_encodings, group_unwritable, lemma_encoding_len, parse_body, parse_children,
    parse_group, parse_rule, total_len, RuleView, TAG_ALL, TAG_ANY, TAG_NOT,
};
use crate::model::MAX_DEPTH;
use crate::rule_set::{
    distinct, entries_bytes, entry_bytes, entry_refused, lemma_entries_take,
    lemma_position, parse_entries, parse_entry, parse_rule_set, parse_text_at,
    text_bytes, text_refused, RuleSetView,
};
use crate::wire::{
    header_bytes, lemma_header_of_read, lemma_header_round_trip, lemma_u32_at_encoded,
    lemma_u32_le_of_read, lemma_u64_at_encoded, lemma_u64_le_of_read, u32_at, u32_le, u64_at,
    u64_le,
};
use vstd::prelude::*;
use vstd::utf8::encode_utf8;

verus! {

/// Rules back to back start with the first of them.
pub proof fn lemma_concat_front(rules: Seq<RuleView>)
    requires
        rules.len() > 0,
    ensures
        concat_encodings(rules) == rules[0].encoding() + concat_encodings(rules.drop_first()),
        total_len(rules) == rules[0].len() + total_len(rules.drop_first()),
    decreases rules.len(),
{
    if rules.len() == 1 {
        assert(rules.drop_last() =~= Seq::<RuleView>::empty());
        assert(rules.drop_first() =~= Seq::<RuleView>::empty());
        assert(concat_encodings(rules) =~= rules[0].encoding() + concat_encodings(
            rules.drop_first(),
        ));
    } else {
        lemma_concat_front(rules.drop_last());
        assert(rules.drop_first().drop_last() =~= rules.drop_last().drop_first());
        assert(concat_encodings(rules) =~= rules[0].encoding() + concat_encodings(
            rules.drop_first(),
        ));
    }
}

/// Every node takes at least its header, so there are no more rules than bytes.
pub proof fn lemma_total_len_bounds_count(rules: Seq<RuleView>)
    ensures
        8 * rules.len() <= total_len(rules),
    decreases rules.len(),
{
    if rules.len() > 0 {
        lemma_total_len_bounds_count(rules.drop_last());
    }
}

/// A rule that is one of several is no longer than all of them.
pub proof fn lemma_total_len_bounds_each(rules: Seq<RuleView>, i: int)
    requires
        0 <= i < rules.len(),
    ensures
        rules[i].len() <= total_len(rules),
    decreases rules.len(),
{
    if i < rules.len() - 1 {
        lemma_total_len_bounds_each(rules.drop_last(), i);
    }
}

/// Decoding undoes encoding: a buffer that starts with the encoding of a rule
/// decodes to that rule and to its length, whatever follows, as long as the
/// rule's body is short enough for its header and the rule has no more levels
/// than the limit.
pub proof fn law_decode_encoded(rule: RuleView, rest: Seq<u8>, limit: nat)
    requires
        rule.well_formed(),
        rule.body_len() <= u32::MAX,
        rule.within_depth(limit),
    ensures
        parse_rule(rule.encoding() + rest, limit) == Ok::<(RuleView, nat), RuleSetError>(
            (rule, rule.len()),
        ),
    decreases rule, 0nat,
{
    let bytes = rule.encoding() + rest;
    let body = rule.body();
    lemma_encoding_len(rule);
    lemma_header_round_trip(rule.tag(), rule.body_len() as u32, body + rest);
    assert(bytes =~= header_bytes(rule.tag(), rule.body_len() as u32) + (body + rest));
    assert(bytes.subrange(8, 8 + rule.body_len() as int) =~= body);
    let inner = (limit - 1) as nat;
    match rule {
        RuleView::Leaf(leaf) => {
            law_leaf_decodes(leaf);
        },
        RuleView::Any(rules) => {
            lemma_group_decodes(rules, inner);
        },
        RuleView::All(rules) => {
            lemma_group_decodes(rules, inner);
        },
        RuleView::Not(negated) => {
            law_decode_encoded(*negated, Seq::empty(), inner);
            assert(negated.encoding() + Seq::<u8>::empty() =~= negated.encoding());
            lemma_encoding_len(*negated);
        },
    }
    assert(parse_body(rule.tag(), body, inner) == Ok::<RuleView, RuleSetError>(rule));
}

/// The body of a combinator decodes to its rules.
pub proof fn lemma_group_decodes(rules: Seq<RuleView>, limit: nat)
    requires
        8 + total_len(rules) <= u32::MAX,
        forall|i: int| 0 <= i < rules.len() ==> (#[trigger] rules[i]).well_formed(),
        forall|i: int| 0 <= i < rules.len() ==> (#[trigger] rules[i]).within_depth(limit),
    ensures
        parse_group(u64_le(rules.len() as u64) + concat_encodings(rules), limit) == Ok::<
            Seq<RuleView>,
            RuleSetError,
        >(rules),
    decreases rules, 2nat, 0nat,
{
    let body = u64_le(rules.len() as u64) + concat_encodings(rules);
    lemma_total_len_bounds_count(rules);
    lemma_u64_at_encoded(Seq::empty(), rules.len() as u64, concat_encodings(rules));
    assert(Seq::<u8>::empty() + u64_le(rules.len() as u64) + concat_encodings(rules) =~= body);
    assert(body.subrange(8, body.len() as int) =~= concat_encodings(rules));
    lemma_children_decode(rules, 0, limit);
    assert(rules.subrange(0, rules.len() as int) =~= rules);
}

/// The rules from the `k`th on, back to back, decode to those rules.
pub proof fn lemma_children_decode(rules: Seq<RuleView>, k: int, limit: nat)
    requires
        0 <= k <= rules.len(),
        8 + total_len(rules) <= u32::MAX,
        forall|i: int| 0 <= i < rules.len() ==> (#[trigger] rules[i]).well_formed(),
        forall|i: int| 0 <= i < rules.len() ==> (#[trigger] rules[i]).within_depth(limit),
    ensures
        parse_children(
            concat_encodings(rules.subrange(k, rules.len() as int)),
            (rules.len() - k) as nat,
            limit,
        ) == Ok::<Seq<RuleView>, RuleSetError>(rules.subrange(k, rules.len() as int)),
    decreases rules, 1nat, rules.len() - k,
{
    let tail = rules.subrange(k, rules.len() as int);
    if k == rules.len() {
        assert(tail =~= Seq::<RuleView>::empty());
    } else {
        let after = rules.subrange(k + 1, rules.len() as int);
        let bytes = concat_encodings(tail);
        lemma_concat_front(tail);
        assert(tail.drop_first() =~= after);
        assert(tail[0] == rules[k]);
        lemma_total_len_bounds_each(rules, k);
        law_decode_encoded(rules[k], concat_encodings(after), limit);
        lemma_encoding_len(rules[k]);
        assert(bytes.subrange(rules[k].len() as int, bytes.len() as int) =~= concat_encodings(
            after,
        ));
        lemma_children_decode(rules, k + 1, limit);
        assert(seq![rules[k]] + after =~= tail);
    }
}

/// Encoding undoes decoding, and a rule is as long as what was read for it:
/// whatever a buffer decodes to takes as many bytes as its length says, and its
/// encoding is those bytes of the buffer.
pub proof fn law_encode_decoded(bytes: Seq<u8>, limit: nat)
    requires
        parse_rule(bytes, limit) is Ok,
    ensures
        ({
            let (rule, n) = parse_rule(bytes, limit)->Ok_0;
            &&& n <= bytes.len()
            &&& rule.len() == n
            &&& rule.body_len() <= u32::MAX
            &&& rule.well_formed()
            &&& rule.within_depth(limit)
            &&& rule.encoding() == bytes.subrange(0, n as int)
        }),
    decreases limit, 0nat, 0nat,
{
    let (rule, n) = parse_rule(bytes, limit)->Ok_0;
    let tag = u32_at(bytes, 0);
    let body = bytes.subrange(8, n as int);
    lemma_body_decoded(tag, body, (limit - 1) as nat);
    lemma_header_of_read(bytes);
    assert(rule.encoding() =~= bytes.subrange(0, 8) + body);
    assert(bytes.subrange(0, 8) + body =~= bytes.subrange(0, n as int));
}

/// What a body decodes to is of the kind asked for, and has that body.
pub proof fn lemma_body_decoded(tag: u32, body: Seq<u8>, limit: nat)
    requires
        parse_body(tag, body, limit) is Ok,
    ensures
        ({
            let rule = parse_body(tag, body, limit)->Ok_0;
            &&& rule.tag() == tag
            &&& rule.body_len() == body.len()
            &&& rule.body() == body
            &&& rule.well_formed()
            &&& rule.within_depth(limit + 1)
        }),
    decreases limit, 2nat, 0nat,
{
    let rule = parse_body(tag, body, limit)->Ok_0;
    if tag == TAG_ANY || tag == TAG_ALL {
        let rules = parse_group(body, limit)->Ok_0;
        let rest = body.subrange(8, body.len() as int);
        lemma_children_decoded(rest, u64_at(body, 0) as nat, limit);
        lemma_u64_le_of_read(body, 0);
        assert(rule.body() =~= body.subrange(0, 8) + rest);
        assert(body.subrange(0, 8) + rest =~= body);
    } else if tag == TAG_NOT {
        law_encode_decoded(body, limit);
        let (negated, n) = parse_rule(body, limit)->Ok_0;
        assert(body.subrange(0, n as int) =~= body);
    } else {
        law_leaf_decoded(tag, body);
    }
}

/// What a run of nodes decodes to is as many rules as asked for, which back to
/// back are the bytes read.
pub proof fn lemma_children_decoded(bytes: Seq<u8>, count: nat, limit: nat)
    requires
        parse_children(bytes, count, limit) is Ok,
    ensures
        ({
            let rules = parse_children(bytes, count, limit)->Ok_0;
            &&& rules.len() == count
            &&& total_len(rules) == bytes.len()
            &&& concat_encodings(rules) == bytes
            &&& forall|i: int| 0 <= i < rules.len() ==> (#[trigger] rules[i]).well_formed()
            &&& forall|i: int| 0 <= i < rules.len() ==> (#[trigger] rules[i]).within_depth(limit)
        }),
    decreases limit, 1nat, count,
{
    let rules = parse_children(bytes, count, limit)->Ok_0;
    if count == 0 {
        assert(concat_encodings(rules) =~= bytes);
    } else {
        let (first, n) = parse_rule(bytes, limit)->Ok_0;
        let after = bytes.subrange(n as int, bytes.len() as int);
        let rest = parse_children(after, (count - 1) as nat, limit)->Ok_0;
        law_encode_decoded(bytes, limit);
        lemma_children_decoded(after, (count - 1) as nat, limit);
        assert(rules.drop_first() =~= rest);
        lemma_concat_front(rules);
        assert(bytes.subrange(0, n as int) + after =~= bytes);
    }
}

/// The body of a combinator is as long as its count and its rules together:
/// eight bytes, and the lengths of the rules.
pub proof fn law_group_length(rules: Seq<RuleView>)
    ensures
        RuleView::Any(rules).body_len() == 8 + total_len(rules),
        RuleView::All(rules).body_len() == 8 + total_len(rules),
        rules.len() > 0 ==> total_len(rules) == total_len(rules.drop_last()) + rules.last().len(),
        rules.len() == 0 ==> total_len(rules) == 0,
{
}

/// A rule that can be written has a body short enough for its header.
pub proof fn lemma_writable_fits(rule: RuleView)
    requires
        rule.unwritable() is None,
    ensures
        rule.body_len() <= u32::MAX,
{
    match rule {
        RuleView::Leaf(_) => {},
        RuleView::Any(rules) => {
            assert(group_unwritable(rules) is None);
        },
        RuleView::All(rules) => {
            assert(group_unwritable(rules) is None);
        },
        RuleView::Not(negated) => {},
    }
}

/// Round trip: the encoding of a rule that can be written, and that has no
/// more levels than the limit, decodes to that rule, and all of it is read.
pub proof fn law_round_trip(rule: RuleView, limit: nat)
    requires
        rule.well_formed(),
        rule.unwritable() is None,
        rule.within_depth(limit),
    ensures
        parse_rule(rule.encoding(), limit) == Ok::<(RuleView, nat), RuleSetError>(
            (rule, rule.encoding().len()),
        ),
{
    lemma_writable_fits(rule);
    lemma_encoding_len(rule);
    law_decode_encoded(rule, Seq::empty(), limit);
    assert(rule.encoding() + Seq::<u8>::empty() =~= rule.encoding());
}

/// A name is read back from where it stands in a buffer.
pub proof fn lemma_text_decodes(bytes: Seq<u8>, at: int, text: Seq<char>)
    requires
        0 <= at,
        at + text_bytes(text).len() <= bytes.len(),
        bytes.subrange(at, at + text_bytes(text).len()) == text_bytes(text),
        text_refused(text) is None,
    ensures
        text_bytes(text).len() == 4 + encode_utf8(text).len(),
        parse_text_at(bytes, at) == Ok::<(Seq<char>, int), RuleSetError>(
            (text, at + text_bytes(text).len()),
        ),
{
    broadcast use vstd::utf8::encode_utf8_valid_utf8, vstd::utf8::encode_utf8_decode_utf8;

    let length = encode_utf8(text).len() as u32;
    let region = bytes.subrange(at, at + text_bytes(text).len());
    lemma_u32_at_encoded(Seq::empty(), length, encode_utf8(text));
    assert(Seq::<u8>::empty() + u32_le(length) + encode_utf8(text) =~= text_bytes(text));
    assert(u32_le(length).len() == 4);
    assert(region.len() == 4 + encode_utf8(text).len());
    assert(bytes.subrange(at, at + 4) =~= region.subrange(0, 4));
    assert(region.subrange(0, 4) =~= u32_le(length));
    assert(bytes.subrange(at + 4, at + 4 + length) =~= region.subrange(4, 4 + length));
    assert(region.subrange(4, 4 + length) =~= encode_utf8(text));
}

/// Where a name was read from a buffer, the buffer holds the name as it is written.
pub proof fn lemma_text_decoded(bytes: Seq<u8>, at: int)
    requires
        0 <= at,
        parse_text_at(bytes, at) is Ok,
    ensures
        ({
            let (text, end) = parse_text_at(bytes, at)->Ok_0;
            &&& at + 4 <= end <= bytes.len()
            &&& text_refused(text) is None
            &&& text_bytes(text) == bytes.subrange(at, end)
        }),
{
    broadcast use vstd::utf8::decode_utf8_encode_utf8;

    let (text, end) = parse_text_at(bytes, at)->Ok_0;
    lemma_u32_le_of_read(bytes, at);
    assert(bytes.subrange(at, at + 4) + bytes.subrange(at + 4, end) =~= bytes.subrange(at, end));
}

/// An entry is read back from where it stands in a buffer.
pub proof fn lemma_entry_decodes(bytes: Seq<u8>, at: int, entry: (Seq<char>, RuleView))
    requires
        0 <= at,
        at + entry_bytes(entry).len() <= bytes.len(),
        bytes.subrange(at, at + entry_bytes(entry).len()) == entry_bytes(entry),
        entry_refused(entry) is None,
        entry.1.well_formed(),
        entry.1.within_depth(MAX_DEPTH as nat),
    ensures
        parse_entry(bytes, at) == Ok::<((Seq<char>, RuleView), int), RuleSetError>(
            (entry, at + entry_bytes(entry).len()),
        ),
{
    let name = text_bytes(entry.0);
    let rule = entry.1.encoding();
    let length = entry.1.len() as u32;
    let region = bytes.subrange(at, at + entry_bytes(entry).len());
    let next = at + name.len();
    lemma_encoding_len(entry.1);
    lemma_u32_at_encoded(name, length, rule);
    assert(bytes.subrange(at, next) =~= region.subrange(0, name.len() as int));
    assert(region.subrange(0, name.len() as int) =~= name);
    lemma_text_decodes(bytes, at, entry.0);
    let start = name.len() as int;
    assert(u32_le(length).len() == 4);
    assert(region.len() == start + 4 + rule.len());
    assert(bytes.subrange(next, next + 4) =~= region.subrange(start, start + 4));
    assert(region.subrange(start, start + 4) =~= u32_le(length));
    assert(bytes.subrange(next + 4, next + 4 + length) =~= region.subrange(
        start + 4,
        start + 4 + length,
    ));
    assert(region.subrange(start + 4, start + 4 + length) =~= rule);
    law_round_trip(entry.1, MAX_DEPTH as nat);
}

/// Where an entry was read from a buffer, the buffer holds the entry as it is written.
pub proof fn lemma_entry_decoded(bytes: Seq<u8>, at: int)
    requires
        0 <= at,
        parse_entry(bytes, at) is Ok,
    ensures
        ({
            let (entry, end) = parse_entry(bytes, at)->Ok_0;
            &&& at <= end <= bytes.len()
            &&& entry.1.well_formed()
            &&& entry.1.within_depth(MAX_DEPTH as nat)
            &&& entry_bytes(entry) == bytes.subrange(at, end)
        }),
{
    let (entry, end) = parse_entry(bytes, at)->Ok_0;
    let (operation, next) = parse_text_at(bytes, at)->Ok_0;
    lemma_text_decoded(bytes, at);
    lemma_u32_le_of_read(bytes, next);
    let part = bytes.subrange(next + 4, end);
    law_encode_decoded(part, MAX_DEPTH as nat);
    assert(part.subrange(0, part.len() as int) =~= part);
    assert(bytes.subrange(at, next) + bytes.subrange(next, next + 4) + part =~= bytes.subrange(
        at,
        end,
    ));
}

/// Entries back to back start with the first of them.
pub proof fn lemma_entries_front(entries: Seq<(Seq<char>, RuleView)>)
    requires
        entries.len() > 0,
    ensures
        entries_bytes(entries) == entry_bytes(entries[0]) + entries_bytes(entries.drop_first()),
    decreases entries.len(),
{
    if entries.len() == 1 {
        assert(entries.drop_last() =~= Seq::<(Seq<char>, RuleView)>::empty());
        assert(entries.drop_first() =~= Seq::<(Seq<char>, RuleView)>::empty());
        assert(entries_bytes(entries) =~= entry_bytes(entries[0]) + entries_bytes(
            entries.drop_first(),
        ));
    } else {
        lemma_entries_front(entries.drop_last());
        assert(entries.drop_first().drop_last() =~= entries.drop_last().drop_first());
        assert(entries_bytes(entries) =~= entry_bytes(entries[0]) + entries_bytes(
            entries.drop_first(),
        ));
    }
}

/// The entries from the `k`th on, where they stand in a buffer that ends with
/// them, are read back after the entries before them.
pub proof fn lemma_entries_decode(
    bytes: Seq<u8>,
    at: int,
    entries: Seq<(Seq<char>, RuleView)>,
    k: int,
)
    requires
        0 <= at <= bytes.len(),
        0 <= k <= entries.len(),
        bytes.subrange(at, bytes.len() as int) == entries_bytes(
            entries.subrange(k, entries.len() as int),
        ),
        distinct(entries),
        forall|i: int| 0 <= i < entries.len() ==> entry_refused(#[trigger] entries[i]) is None,
        forall|i: int| 0 <= i < entries.len() ==> (#[trigger] entries[i]).1.well_formed(),
        forall|i: int|
            0 <= i < entries.len() ==> (#[trigger] entries[i]).1.within_depth(MAX_DEPTH as nat),
    ensures
        parse_entries(bytes, at, (entries.len() - k) as nat, entries.take(k)) == Ok::<
            Seq<(Seq<char>, RuleView)>,
            RuleSetError,
        >(entries),
    decreases entries.len() - k,
{
    let tail = entries.subrange(k, entries.len() as int);
    if k == entries.len() {
        assert(entries.take(k) =~= entries);
        assert(tail =~= Seq::<(Seq<char>, RuleView)>::empty());
    } else {
        let entry = entries[k];
        let after = entries.subrange(k + 1, entries.len() as int);
        let rest = bytes.subrange(at, bytes.len() as int);
        lemma_entries_front(tail);
        assert(tail.drop_first() =~= after);
        assert(tail[0] == entry);
        let next = at + entry_bytes(entry).len();
        assert(rest.len() == bytes.len() - at);
        assert(entries_bytes(tail).len() == entry_bytes(entry).len() + entries_bytes(after).len());
        assert(bytes.subrange(at, next) =~= rest.subrange(0, entry_bytes(entry).len() as int));
        assert(rest.subrange(0, entry_bytes(entry).len() as int) =~= entry_bytes(entry));
        lemma_entry_decodes(bytes, at, entry);
        assert(bytes.subrange(next, bytes.len() as int) =~= rest.subrange(
            entry_bytes(entry).len() as int,
            rest.len() as int,
        ));
        assert(rest.subrange(entry_bytes(entry).len() as int, rest.len() as int) =~= entries_bytes(
            after,
        ));
        lemma_position(entries.take(k), entry.0);
        assert forall|j: int| 0 <= j < k implies (#[trigger] entries.take(k)[j]).0 != entry.0 by {
            assert(entries.take(k)[j] == entries[j]);
        }
        assert(entries.take(k).push(entry) =~= entries.take(k + 1));
        lemma_entries_decode(bytes, next, entries, k + 1);
    }
}

/// What a run of entries was read from is the entries as they are written,
/// after those read before; and no operation occurs twice among them.
pub proof fn lemma_entries_decoded(
    bytes: Seq<u8>,
    at: int,
    count: nat,
    seen: Seq<(Seq<char>, RuleView)>,
)
    requires
        0 <= at <= bytes.len(),
        parse_entries(bytes, at, count, seen) is Ok,
        distinct(seen),
        forall|i: int| 0 <= i < seen.len() ==> (#[trigger] seen[i]).1.well_formed(),
    ensures
        ({
            let entries = parse_entries(bytes, at, count, seen)->Ok_0;
            &&& entries.len() == seen.len() + count
            &&& entries.take(seen.len() as int) == seen
            &&& entries_bytes(entries.subrange(seen.len() as int, entries.len() as int))
                == bytes.subrange(at, bytes.len() as int)
            &&& distinct(entries)
            &&& forall|i: int| 0 <= i < entries.len() ==> (#[trigger] entries[i]).1.well_formed()
        }),
    decreases count,
{
    let entries = parse_entries(bytes, at, count, seen)->Ok_0;
    if count == 0 {
        assert(entries.take(seen.len() as int) =~= seen);
        assert(entries.subrange(seen.len() as int, entries.len() as int) =~= Seq::<
            (Seq<char>, RuleView),
        >::empty());
        assert(bytes.subrange(at, bytes.len() as int) =~= Seq::<u8>::empty());
    } else {
        let (entry, next) = parse_entry(bytes, at)->Ok_0;
        let more = seen.push(entry);
        lemma_entry_decoded(bytes, at);
        lemma_position(seen, entry.0);
        assert(distinct(more));
        lemma_entries_decoded(bytes, next, (count - 1) as nat, more);
        let tail = entries.subrange(seen.len() as int, entries.len() as int);
        assert(entries.take(more.len() as int)[seen.len() as int] == entry);
        assert(entries.take(seen.len() as int) =~= entries.take(more.len() as int).take(
            seen.len() as int,
        ));
        assert(more.take(seen.len() as int) =~= seen);
        lemma_entries_front(tail);
        assert(tail.drop_first() =~= entries.subrange(more.len() as int, entries.len() as int));
        assert(bytes.subrange(at, next) + bytes.subrange(next, bytes.len() as int)
            =~= bytes.subrange(at, bytes.len() as int));
    }
}

/// Decoding undoes encoding: the encoding of a rule set that can be written,
/// whose rules have no more levels than the limit, decodes to the rule set.
pub proof fn law_rule_set_round_trip(rule_set: RuleSetView)
    requires
        rule_set.well_formed(),
        rule_set.unwritable() is None,
        forall|i: int|
            0 <= i < rule_set.operations.len() ==> (
            #[trigger] rule_set.operations[i]).1.within_depth(MAX_DEPTH as nat),
    ensures
        parse_rule_set(rule_set.encoding()) == Ok::<RuleSetView, RuleSetError>(rule_set),
{
    let bytes = rule_set.encoding();
    let entries = rule_set.operations;
    let name = text_bytes(rule_set.name);
    let count = entries.len() as u32;
    let at = name.len() as int;
    vstd::bytes::lemma_auto_spec_u32_to_from_le_bytes();
    assert(bytes.subrange(0, at) =~= name);
    lemma_text_decodes(bytes, 0, rule_set.name);
    lemma_u32_at_encoded(name + rule_set.owner, count, entries_bytes(entries));
    assert(bytes.subrange(at, at + 32) =~= rule_set.owner);
    assert(bytes.subrange(at + 36, bytes.len() as int) =~= entries_bytes(entries));
    assert(entries.subrange(0, entries.len() as int) =~= entries);
    assert(entries.take(0) =~= Seq::<(Seq<char>, RuleView)>::empty());
    assert forall|i: int| 0 <= i < entries.len() implies entry_refused(
        #[trigger] entries[i],
    ) is None by {
        lemma_entries_take(entries, i);
        lemma_entries_take(entries, i + 1);
    }
    lemma_entries_decode(bytes, at + 36, entries, 0);
}

/// Encoding undoes decoding: a buffer that decodes to a rule set is the
/// encoding of that rule set, in which no operation occurs twice.
pub proof fn law_rule_set_encodes_decoded(bytes: Seq<u8>)
    requires
        parse_rule_set(bytes) is Ok,
    ensures
        parse_rule_set(bytes)->Ok_0.encoding() == bytes,
        parse_rule_set(bytes)->Ok_0.well_formed(),
{
    let rule_set = parse_rule_set(bytes)->Ok_0;
    let (name, at) = parse_text_at(bytes, 0)->Ok_0;
    lemma_text_decoded(bytes, 0);
    lemma_u32_le_of_read(bytes, at + 32);
    lemma_entries_decoded(bytes, at + 36, u32_at(bytes, at + 32) as nat, Seq::empty());
    let entries = rule_set.operations;
    assert(entries.subrange(0, entries.len() as int) =~= entries);
    assert(rule_set.encoding() =~= bytes.subrange(0, at) + bytes.subrange(at, at + 32)
        + bytes.subrange(at + 32, at + 36) + bytes.subrange(at + 36, bytes.len() as int));
    assert(bytes.subrange(0, at) + bytes.subrange(at, at + 32) + bytes.subrange(at + 32, at + 36)
        + bytes.subrange(at + 36, bytes.len() as int) =~= bytes);
}

} // verus!
