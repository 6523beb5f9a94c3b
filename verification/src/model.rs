//! The mathematical model of a rule tree: what it is, how long it is on the
//! wire, which bytes encode it, and which rule a buffer decodes to.

use crate::error::RuleSetError;
use crate::leaf::{leaf_tag, parse_leaf, LeafView};
use crate::wire::{header_bytes, node_refused, u32_at, u64_at, u64_le};
use vstd::prelude::*;

verus! {

/// Type tag of a conjunction.
pub const TAG_ALL: u32 = 2;

/// Type tag of a disjunction.
pub const TAG_ANY: u32 = 4;

/// Type tag of a negation.
pub const TAG_NOT: u32 = 8;

/// How many levels of nesting a tree may have, its root included.
pub const MAX_DEPTH: usize = 32;

/// A rule tree as a mathematical value.
pub enum RuleView {
    /// A rule without sub-rules.
    Leaf(LeafView),
    /// Passes when one of the rules passes.
    Any(Seq<RuleView>),
    /// Passes when every rule passes.
    All(Seq<RuleView>),
    /// Passes when the rule fails.
    Not(Box<RuleView>),
}

/// Whether a type tag names a kind of rule.
pub open spec fn known_tag(tag: u32) -> bool {
    tag == TAG_ALL || tag == TAG_ANY || tag == TAG_NOT || leaf_tag(tag)
}

impl RuleView {
    /// The type tag in the node's header.
    pub open spec fn tag(self) -> u32 {
        match self {
            RuleView::Leaf(leaf) => leaf.tag(),
            RuleView::Any(_) => TAG_ANY,
            RuleView::All(_) => TAG_ALL,
            RuleView::Not(_) => TAG_NOT,
        }
    }

    /// Whether every address in the tree has thirty-two bytes.
    pub open spec fn well_formed(self) -> bool
        decreases self,
    {
        match self {
            RuleView::Leaf(leaf) => leaf.well_formed(),
            RuleView::Any(rules) => forall|i: int|
                0 <= i < rules.len() ==> (#[trigger] rules[i]).well_formed(),
            RuleView::All(rules) => forall|i: int|
                0 <= i < rules.len() ==> (#[trigger] rules[i]).well_formed(),
            RuleView::Not(rule) => rule.well_formed(),
        }
    }

    /// Length in bytes of what follows the node's header.
    pub open spec fn body_len(self) -> nat
        decreases self,
    {
        match self {
            RuleView::Leaf(leaf) => leaf.body().len(),
            RuleView::Any(rules) => 8 + total_len(rules),
            RuleView::All(rules) => 8 + total_len(rules),
            RuleView::Not(rule) => 8 + rule.body_len(),
        }
    }

    /// Length in bytes of the whole node: header and body.
    pub open spec fn len(self) -> nat {
        8 + self.body_len()
    }

    /// What follows the node's header.
    pub open spec fn body(self) -> Seq<u8>
        decreases self, 0nat,
    {
        match self {
            RuleView::Leaf(leaf) => leaf.body(),
            RuleView::Any(rules) => u64_le(rules.len() as u64) + concat_encodings(rules),
            RuleView::All(rules) => u64_le(rules.len() as u64) + concat_encodings(rules),
            RuleView::Not(rule) => rule.encoding(),
        }
    }

    /// The node on the wire: its header, then its body.
    pub open spec fn encoding(self) -> Seq<u8>
        decreases self, 1nat,
    {
        header_bytes(self.tag(), self.body_len() as u32) + self.body()
    }

    /// Whether the tree has at most `limit` levels.
    pub open spec fn within_depth(self, limit: nat) -> bool
        decreases self,
    {
        &&& limit > 0
        &&& match self {
            RuleView::Leaf(_) => true,
            RuleView::Any(rules) => forall|i: int|
                0 <= i < rules.len() ==> (#[trigger] rules[i]).within_depth((limit - 1) as nat),
            RuleView::All(rules) => forall|i: int|
                0 <= i < rules.len() ==> (#[trigger] rules[i]).within_depth((limit - 1) as nat),
            RuleView::Not(rule) => rule.within_depth((limit - 1) as nat),
        }
    }

    /// Why the tree cannot be written, if it cannot: a combinator without
    /// rules, or a body longer than a header can announce. Children come
    /// before their parent, and earlier children before later ones.
    pub open spec fn unwritable(self) -> Option<RuleSetError>
        decreases self, 0nat,
    {
        match self {
            RuleView::Leaf(leaf) => node_refused(leaf.body()),
            RuleView::Any(rules) => group_unwritable(rules),
            RuleView::All(rules) => group_unwritable(rules),
            RuleView::Not(rule) => match rule.unwritable() {
                Some(e) => Some(e),
                None => if rule.len() > u32::MAX {
                    Some(RuleSetError::NumericalOverflow)
                } else {
                    None
                },
            },
        }
    }
}

/// Sum of the lengths of the rules on the wire.
pub open spec fn total_len(rules: Seq<RuleView>) -> nat
    decreases rules,
{
    if rules.len() == 0 {
        0
    } else {
        total_len(rules.drop_last()) + 8 + rules.last().body_len()
    }
}

/// The rules on the wire, back to back.
pub open spec fn concat_encodings(rules: Seq<RuleView>) -> Seq<u8>
    decreases rules, 0nat,
{
    if rules.len() == 0 {
        Seq::empty()
    } else {
        concat_encodings(rules.drop_last()) + rules.last().encoding()
    }
}

/// The first reason, in order, why one of the rules cannot be written.
pub open spec fn first_unwritable(rules: Seq<RuleView>) -> Option<RuleSetError>
    decreases rules, 0nat,
{
    if rules.len() == 0 {
        None
    } else {
        match first_unwritable(rules.drop_last()) {
            Some(e) => Some(e),
            None => rules.last().unwritable(),
        }
    }
}

/// Why a combinator over the rules cannot be written, if it cannot.
pub open spec fn group_unwritable(rules: Seq<RuleView>) -> Option<RuleSetError>
    decreases rules, 1nat,
{
    match first_unwritable(rules) {
        Some(e) => Some(e),
        None => if rules.len() == 0 {
            Some(RuleSetError::DataIsEmpty)
        } else if 8 + total_len(rules) > u32::MAX {
            Some(RuleSetError::NumericalOverflow)
        } else {
            None
        },
    }
}

/// Sum of the lengths of the parts.
pub open spec fn parts_len(parts: Seq<Seq<u8>>) -> nat
    decreases parts.len(),
{
    if parts.len() == 0 {
        0
    } else {
        parts_len(parts.drop_last()) + parts.last().len()
    }
}

/// The parts, back to back.
pub open spec fn concat(parts: Seq<Seq<u8>>) -> Seq<u8>
    decreases parts.len(),
{
    if parts.len() == 0 {
        Seq::empty()
    } else {
        concat(parts.drop_last()) + parts.last()
    }
}

/// A combinator on the wire, given its rules on the wire: the header, the
/// number of rules, then the rules back to back.
pub open spec fn group_bytes(tag: u32, parts: Seq<Seq<u8>>) -> Seq<u8> {
    header_bytes(tag, (8 + parts_len(parts)) as u32) + u64_le(parts.len() as u64) + concat(parts)
}

/// Why a combinator over the parts cannot be written, if it cannot.
pub open spec fn group_refused(parts: Seq<Seq<u8>>) -> Option<RuleSetError> {
    if parts.len() == 0 {
        Some(RuleSetError::DataIsEmpty)
    } else if 8 + parts_len(parts) > u32::MAX {
        Some(RuleSetError::NumericalOverflow)
    } else {
        None
    }
}

/// The node that a buffer starts with, and how many bytes it takes: a header,
/// then a body of the announced length that holds exactly what the kind asks for.
/// `limit` is the number of levels the node may have.
pub open spec fn parse_rule(bytes: Seq<u8>, limit: nat) -> Result<(RuleView, nat), RuleSetError>
    decreases limit, 0nat, 0nat,
{
    if limit == 0 {
        Err(RuleSetError::NestingTooDeep)
    } else if bytes.len() < 8 {
        Err(RuleSetError::MalformedHeader)
    } else if !known_tag(u32_at(bytes, 0)) {
        Err(RuleSetError::UnknownRuleType)
    } else if bytes.len() < 8 + u32_at(bytes, 4) {
        Err(RuleSetError::TruncatedBuffer)
    } else {
        let end = 8 + u32_at(bytes, 4) as nat;
        match parse_body(u32_at(bytes, 0), bytes.subrange(8, end as int), (limit - 1) as nat) {
            Ok(rule) => Ok((rule, end)),
            Err(e) => Err(e),
        }
    }
}

/// The node of the kind that `tag` names whose body is exactly `body`.
/// `limit` is the number of levels that its children may have.
pub open spec fn parse_body(tag: u32, body: Seq<u8>, limit: nat) -> Result<RuleView, RuleSetError>
    decreases limit, 2nat, 0nat,
{
    if tag == TAG_ANY {
        match parse_group(body, limit) {
            Ok(rules) => Ok(RuleView::Any(rules)),
            Err(e) => Err(e),
        }
    } else if tag == TAG_ALL {
        match parse_group(body, limit) {
            Ok(rules) => Ok(RuleView::All(rules)),
            Err(e) => Err(e),
        }
    } else if tag == TAG_NOT {
        match parse_rule(body, limit) {
            Ok((rule, n)) => if n == body.len() {
                Ok(RuleView::Not(Box::new(rule)))
            } else {
                Err(RuleSetError::LengthMismatch)
            },
            Err(e) => Err(e),
        }
    } else {
        match parse_leaf(tag, body) {
            Ok(leaf) => Ok(RuleView::Leaf(leaf)),
            Err(e) => Err(e),
        }
    }
}

/// The rules in the body of a combinator: a count, then that many nodes,
/// which together take up the whole body.
pub open spec fn parse_group(body: Seq<u8>, limit: nat) -> Result<Seq<RuleView>, RuleSetError>
    decreases limit, 1nat, u64::MAX as nat + 1,
{
    if body.len() < 8 {
        Err(RuleSetError::TruncatedBuffer)
    } else {
        parse_children(body.subrange(8, body.len() as int), u64_at(body, 0) as nat, limit)
    }
}

/// Exactly `count` nodes that stand back to back and take up all of `bytes`.
pub open spec fn parse_children(bytes: Seq<u8>, count: nat, limit: nat) -> Result<
    Seq<RuleView>,
    RuleSetError,
>
    decreases limit, 1nat, count,
{
    if count == 0 {
        if bytes.len() == 0 {
            Ok(Seq::empty())
        } else {
            Err(RuleSetError::LengthMismatch)
        }
    } else {
        match parse_rule(bytes, limit) {
            Err(e) => Err(e),
            Ok((first, n)) => match parse_children(
                bytes.subrange(n as int, bytes.len() as int),
                (count - 1) as nat,
                limit,
            ) {
                Err(e) => Err(e),
                Ok(rest) => Ok(seq![first] + rest),
            },
        }
    }
}

/// The lengths of the first parts add up to no more than those of all.
pub proof fn lemma_parts_len_take(parts: Seq<Seq<u8>>, i: int)
    requires
        0 <= i <= parts.len(),
    ensures
        parts_len(parts.take(i)) <= parts_len(parts),
        i < parts.len() ==> parts_len(parts.take(i + 1)) == parts_len(parts.take(i))
            + parts[i].len(),
        i < parts.len() ==> concat(parts.take(i + 1)) == concat(parts.take(i)) + parts[i],
    decreases parts.len(),
{
    if i < parts.len() {
        assert(parts.take(i + 1).drop_last() =~= parts.take(i));
        assert(parts.drop_last().take(i) =~= parts.take(i));
        lemma_parts_len_take(parts.drop_last(), i);
    } else {
        assert(parts.take(i) =~= parts);
    }
}

/// A node is as long on the wire as its length says.
pub proof fn lemma_encoding_len(rule: RuleView)
    ensures
        rule.body().len() == rule.body_len(),
        rule.encoding().len() == rule.len(),
    decreases rule, 1nat,
{
    vstd::bytes::lemma_auto_spec_u32_to_from_le_bytes();
    vstd::bytes::lemma_auto_spec_u64_to_from_le_bytes();
    match rule {
        RuleView::Leaf(_) => {},
        RuleView::Any(rules) => {
            lemma_concat_encodings_len(rules);
        },
        RuleView::All(rules) => {
            lemma_concat_encodings_len(rules);
        },
        RuleView::Not(inner) => {
            lemma_encoding_len(*inner);
        },
    }
}

/// Rules back to back are as long as their lengths add up to.
pub proof fn lemma_concat_encodings_len(rules: Seq<RuleView>)
    ensures
        concat_encodings(rules).len() == total_len(rules),
    decreases rules, 0nat,
{
    if rules.len() > 0 {
        lemma_concat_encodings_len(rules.drop_last());
        lemma_encoding_len(rules.last());
    }
}

/// Parts that are the encodings of the rules are, back to back, the rules back
/// to back.
pub proof fn lemma_concat_of_encodings(rules: Seq<RuleView>, parts: Seq<Seq<u8>>)
    requires
        parts.len() == rules.len(),
        forall|i: int| 0 <= i < rules.len() ==> #[trigger] parts[i] == rules[i].encoding(),
    ensures
        concat(parts) == concat_encodings(rules),
        parts_len(parts) == total_len(rules),
    decreases rules.len(),
{
    if rules.len() > 0 {
        lemma_concat_of_encodings(rules.drop_last(), parts.drop_last());
        lemma_encoding_len(rules.last());
    }
}

/// The lengths of the first rules add up to no more than those of all.
pub proof fn lemma_total_len_take(rules: Seq<RuleView>, i: int)
    requires
        0 <= i <= rules.len(),
    ensures
        total_len(rules.take(i)) <= total_len(rules),
        i < rules.len() ==> total_len(rules.take(i + 1)) == total_len(rules.take(i))
            + rules[i].len(),
    decreases rules.len(),
{
    if i < rules.len() {
        assert(rules.take(i + 1).drop_last() =~= rules.take(i));
        assert(rules.drop_last().take(i) =~= rules.take(i));
        lemma_total_len_take(rules.drop_last(), i);
    } else {
        assert(rules.take(i) =~= rules);
    }
}

/// What stops the first rules from being written stops them all.
pub proof fn lemma_first_unwritable_take(rules: Seq<RuleView>, i: int)
    requires
        0 <= i <= rules.len(),
    ensures
        first_unwritable(rules.take(i)) is Some ==> first_unwritable(rules) == first_unwritable(
            rules.take(i),
        ),
        i < rules.len() ==> first_unwritable(rules.take(i + 1)) == (match first_unwritable(
            rules.take(i),
        ) {
            Some(e) => Some(e),
            None => rules[i].unwritable(),
        }),
    decreases rules.len(),
{
    if i < rules.len() {
        assert(rules.take(i + 1).drop_last() =~= rules.take(i));
        assert(rules.drop_last().take(i) =~= rules.take(i));
        lemma_first_unwritable_take(rules.drop_last(), i);
    } else {
        assert(rules.take(i) =~= rules);
    }
}

} // verus!
