//! The selective map collector: the decode loop that consumes a
//! self-describing key/value stream and partitions it into "belongs to
//! this field's collection" and "left for the host's own handling".
//!
//! The host decoding mechanism presents the pairs one at a time. For each
//! key the collector obtains the key's string projection, tests it
//! against the field's compiled pattern, and on a match checks the paired
//! value against the field's declared value kind and appends the pair to
//! the collection; a pair whose key does not match is left untouched for
//! the host (typically a companion catch-all field, or silent discard).
//! A key without a string projection, or a matched value of the wrong
//! kind, aborts the whole decode: there is no partial success.

use vstd::prelude::*;

use crate::pattern::Matcher;
use crate::pattern::regex_match;

verus! {

/// A decoded key, reduced to what the collector reads of it: the outcome
/// of its key projection. A `Text` key projects to its string form; an
/// `Opaque` key is one whose projection reports a conversion error (for
/// example, raw bytes that are not valid text).
#[derive(Debug, Clone, PartialEq)]
pub enum RawKey {
    Text(String),
    Opaque(Vec<u8>),
}

/// Whether the key projection succeeds on this key.
pub open spec fn has_text(k: RawKey) -> bool {
    k is Text
}

/// The string form the key projection yields.
pub open spec fn text_of(k: RawKey) -> Seq<char> {
    k->Text_0@
}

/// A decoded value from a self-describing input, reduced to the shapes
/// the collector distinguishes.
#[derive(Debug, Clone, PartialEq)]
pub enum Value {
    Null,
    Bool(bool),
    Int(i64),
    Text(String),
}

/// The value type a selective field declares for its collection: a
/// matched key's paired value must decode as this kind.
#[derive(Debug, Clone, Copy, PartialEq, Eq, Structural)]
pub enum ValueKind {
    Boolean,
    Integer,
    Text,
    Any,
}

/// Whether a value decodes as the declared kind.
pub open spec fn fits(v: Value, kind: ValueKind) -> bool {
    match kind {
        ValueKind::Boolean => v is Bool,
        ValueKind::Integer => v is Int,
        ValueKind::Text => v is Text,
        ValueKind::Any => true,
    }
}

/// One key/value pair, as the host cursor presents it.
#[derive(Debug, Clone, PartialEq)]
pub struct Entry {
    pub key: RawKey,
    pub value: Value,
}

/// Why a decode invocation failed. Either kind aborts the entire record
/// decode; nothing is locally recovered.
#[derive(Debug, Clone, Copy, PartialEq, Eq, Structural)]
pub enum DecodeError {
    /// A key's projection reported a conversion error.
    KeyProjection,
    /// A matched key's paired value does not decode as the declared kind.
    ValueDecode,
}

/// Whether the collector claims this entry: its key projects to a string
/// and that string satisfies the pattern.
pub open spec fn selected(pattern: Seq<char>, e: Entry) -> bool {
    has_text(e.key) && regex_match(pattern, text_of(e.key))
}

/// Whether the decode loop passes this entry without failing: the key
/// projects, and if the entry is claimed its value has the declared kind.
pub open spec fn entry_ok(pattern: Seq<char>, kind: ValueKind, e: Entry) -> bool {
    has_text(e.key) && (selected(pattern, e) ==> fits(e.value, kind))
}

/// Whether the whole stream decodes without failing.
pub open spec fn clean(pattern: Seq<char>, kind: ValueKind, entries: Seq<Entry>) -> bool {
    forall|i: int| 0 <= i < entries.len() ==> entry_ok(pattern, kind, #[trigger] entries[i])
}

/// One step of the decode loop: how the accumulated outcome changes when
/// the cursor hands over one more entry.
pub open spec fn collect_step(
    pattern: Seq<char>,
    kind: ValueKind,
    acc: Result<(Seq<Entry>, Seq<Entry>), DecodeError>,
    e: Entry,
) -> Result<(Seq<Entry>, Seq<Entry>), DecodeError> {
    match acc {
        Err(err) => Err(err),
        Ok((matched, remainder)) => {
            if !has_text(e.key) {
                Err(DecodeError::KeyProjection)
            } else if regex_match(pattern, text_of(e.key)) {
                if fits(e.value, kind) {
                    Ok((matched.push(e), remainder))
                } else {
                    Err(DecodeError::ValueDecode)
                }
            } else {
                Ok((matched, remainder.push(e)))
            }
        },
    }
}

/// What one decode invocation yields on a given stream: on success the
/// claimed entries in arrival order and the untouched entries in arrival
/// order, otherwise the error of the earliest failing entry.
pub open spec fn collect_spec(
    pattern: Seq<char>,
    kind: ValueKind,
    entries: Seq<Entry>,
) -> Result<(Seq<Entry>, Seq<Entry>), DecodeError>
    decreases entries.len(),
{
    if entries.len() == 0 {
        Ok((Seq::empty(), Seq::empty()))
    } else {
        collect_step(
            pattern,
            kind,
            collect_spec(pattern, kind, entries.drop_last()),
            entries.last(),
        )
    }
}

/// The key projection: the borrowed string form of a decoded key, or a
/// projection error for a key that has none.
pub fn project(key: &RawKey) -> (r: Result<&str, DecodeError>)
    ensures
        has_text(*key) ==> (r matches Ok(s) && s@ == text_of(*key)),
        !has_text(*key) ==> r == Err::<&str, DecodeError>(DecodeError::KeyProjection),
{
    match key {
        RawKey::Text(s) => Ok(s.as_str()),
        RawKey::Opaque(_) => Err(DecodeError::KeyProjection),
    }
}

/// The per-key decision the host cursor asks for: `Ok(true)` when the
/// collector claims the key and will consume its value, `Ok(false)` when
/// the pair is left for the host, and a projection error when the key has
/// no string form.
pub fn classify_key(matcher: &Matcher, key: &RawKey) -> (r: Result<bool, DecodeError>)
    ensures
        has_text(*key) ==> r == Ok::<bool, DecodeError>(regex_match(matcher@, text_of(*key))),
        !has_text(*key) ==> r == Err::<bool, DecodeError>(DecodeError::KeyProjection),
{
    match project(key) {
        Ok(text) => Ok(matcher.is_match(text)),
        Err(err) => Err(err),
    }
}

/// Whether a value decodes as the declared kind.
pub fn value_fits(v: &Value, kind: ValueKind) -> (r: bool)
    ensures
        r == fits(*v, kind),
{
    match kind {
        ValueKind::Boolean => match v {
            Value::Bool(_) => true,
            _ => false,
        },
        ValueKind::Integer => match v {
            Value::Int(_) => true,
            _ => false,
        },
        ValueKind::Text => match v {
            Value::Text(_) => true,
            _ => false,
        },
        ValueKind::Any => true,
    }
}

/// The result of one successful decode invocation: the populated
/// collection, built by default-construction and repeated single-pair
/// insertion, and the entries left untouched for the host's fallback
/// handling. Both keep arrival order; duplicate keys are kept as they
/// arrived (the collection here is an association list, which neither
/// deduplicates nor overwrites).
#[derive(Debug, Clone, PartialEq)]
pub struct Collected {
    pub matched: Vec<Entry>,
    pub remainder: Vec<Entry>,
}

/// An error on any prefix of the stream is the error of the whole
/// stream: the loop aborts at the earliest failing entry.
proof fn lemma_error_persists(pattern: Seq<char>, kind: ValueKind, entries: Seq<Entry>, i: int)
    requires
        0 <= i <= entries.len(),
        collect_spec(pattern, kind, entries.take(i)) is Err,
    ensures
        collect_spec(pattern, kind, entries) == collect_spec(pattern, kind, entries.take(i)),
    decreases entries.len() - i,
{
    if i < entries.len() {
        assert(entries.take(i + 1).drop_last() =~= entries.take(i));
        assert(entries.take(i + 1).last() == entries[i]);
        lemma_error_persists(pattern, kind, entries, i + 1);
    } else {
        assert(entries.take(i) =~= entries);
    }
}

/// One decode invocation for a selective field. The host hands over the
/// entries of the enclosing structured value; the result partitions them
/// into the field's collection and the untouched remainder, or reports
/// the error of the earliest failing entry.
#[verifier::loop_isolation(false)]
pub fn collect_matches(matcher: &Matcher, kind: ValueKind, entries: Vec<Entry>) -> (r: Result<
    Collected,
    DecodeError,
>)
    ensures
        r matches Ok(c) ==> collect_spec(matcher@, kind, entries@) == Ok::<
            (Seq<Entry>, Seq<Entry>),
            DecodeError,
        >((c.matched@, c.remainder@)),
        r matches Err(e) ==> collect_spec(matcher@, kind, entries@) == Err::<
            (Seq<Entry>, Seq<Entry>),
            DecodeError,
        >(e),
{
    let ghost all = entries@;
    let mut stream = entries;
    let mut matched: Vec<Entry> = Vec::new();
    let mut remainder: Vec<Entry> = Vec::new();
    proof {
        assert(all.take(0) =~= Seq::<Entry>::empty());
        assert(stream@ =~= all.subrange(all.len() - stream@.len(), all.len() as int));
    }
    while stream.len() > 0
        invariant
            stream@.len() <= all.len(),
            stream@ == all.subrange(all.len() - stream@.len(), all.len() as int),
            collect_spec(matcher@, kind, all.take(all.len() - stream@.len())) == Ok::<
                (Seq<Entry>, Seq<Entry>),
                DecodeError,
            >((matched@, remainder@)),
        decreases stream@.len(),
    {
        let ghost i: int = all.len() - stream@.len();
        let e = stream.remove(0);
        proof {
            assert(e == all[i]);
            assert(stream@ =~= all.subrange(all.len() - stream@.len(), all.len() as int));
            assert(all.take(i + 1).drop_last() =~= all.take(i));
            assert(all.take(i + 1).last() == all[i]);
            assert(collect_spec(matcher@, kind, all.take(i + 1)) == collect_step(
                matcher@,
                kind,
                collect_spec(matcher@, kind, all.take(i)),
                all[i],
            ));
        }
        match classify_key(matcher, &e.key) {
            Err(err) => {
                proof {
                    lemma_error_persists(matcher@, kind, all, i + 1);
                }
                return Err(err);
            },
            Ok(true) => {
                if value_fits(&e.value, kind) {
                    matched.push(e);
                } else {
                    proof {
                        lemma_error_persists(matcher@, kind, all, i + 1);
                    }
                    return Err(DecodeError::ValueDecode);
                }
            },
            Ok(false) => {
                remainder.push(e);
            },
        }
    }
    proof {
        assert(all.take(all.len() as int) =~= all);
    }
    Ok(Collected { matched, remainder })
}

/// The decode loop succeeds exactly on a clean stream, and then
/// partitions it: the collection is the subsequence of claimed entries in
/// arrival order, the remainder the subsequence of unclaimed entries in
/// arrival order.
pub proof fn lemma_collect_partitions(pattern: Seq<char>, kind: ValueKind, entries: Seq<Entry>)
    ensures
        collect_spec(pattern, kind, entries) is Ok <==> clean(pattern, kind, entries),
        clean(pattern, kind, entries) ==> collect_spec(pattern, kind, entries) == Ok::<
            (Seq<Entry>, Seq<Entry>),
            DecodeError,
        >(
            (
                entries.filter(|e: Entry| selected(pattern, e)),
                entries.filter(|e: Entry| !selected(pattern, e)),
            ),
        ),
    decreases entries.len(),
{
    reveal(Seq::filter);
    if entries.len() == 0 {
        assert(clean(pattern, kind, entries));
        assert(entries.filter(|e: Entry| selected(pattern, e)) =~= Seq::<Entry>::empty());
        assert(entries.filter(|e: Entry| !selected(pattern, e)) =~= Seq::<Entry>::empty());
    } else {
        let prefix = entries.drop_last();
        let last = entries.last();
        lemma_collect_partitions(pattern, kind, prefix);
        if clean(pattern, kind, entries) {
            assert forall|i: int| 0 <= i < prefix.len() implies entry_ok(
                pattern,
                kind,
                #[trigger] prefix[i],
            ) by {
                assert(prefix[i] == entries[i]);
            }
            assert(clean(pattern, kind, prefix));
            assert(entry_ok(pattern, kind, last)) by {
                assert(entries[entries.len() - 1] == last);
            }
            assert(collect_spec(pattern, kind, prefix) == Ok::<
                (Seq<Entry>, Seq<Entry>),
                DecodeError,
            >(
                (
                    prefix.filter(|e: Entry| selected(pattern, e)),
                    prefix.filter(|e: Entry| !selected(pattern, e)),
                ),
            ));
            assert(collect_spec(pattern, kind, entries) == collect_step(
                pattern,
                kind,
                collect_spec(pattern, kind, prefix),
                last,
            ));
            if selected(pattern, last) {
                assert(entries.filter(|e: Entry| selected(pattern, e)) == prefix.filter(
                    |e: Entry| selected(pattern, e),
                ).push(last));
                assert(entries.filter(|e: Entry| !selected(pattern, e)) == prefix.filter(
                    |e: Entry| !selected(pattern, e),
                ));
            } else {
                assert(entries.filter(|e: Entry| selected(pattern, e)) == prefix.filter(
                    |e: Entry| selected(pattern, e),
                ));
                assert(entries.filter(|e: Entry| !selected(pattern, e)) == prefix.filter(
                    |e: Entry| !selected(pattern, e),
                ).push(last));
            }
        } else {
            if clean(pattern, kind, prefix) && entry_ok(pattern, kind, last) {
                assert forall|i: int| 0 <= i < entries.len() implies entry_ok(
                    pattern,
                    kind,
                    #[trigger] entries[i],
                ) by {
                    if i < entries.len() - 1 {
                        assert(entries[i] == prefix[i]);
                    } else {
                        assert(entries[i] == last);
                    }
                }
            }
            assert(!(clean(pattern, kind, prefix) && entry_ok(pattern, kind, last)));
        }
    }
}

/// Partition completeness: on a clean stream, every entry whose key
/// matches is in the field's collection and every other entry is in the
/// untouched remainder; nothing is lost, and nothing is both claimed by
/// the collector and left for a sibling field.
pub proof fn lemma_partition_complete(pattern: Seq<char>, kind: ValueKind, entries: Seq<Entry>)
    ensures
        clean(pattern, kind, entries) ==> ({
            let matched = collect_spec(pattern, kind, entries)->Ok_0.0;
            let remainder = collect_spec(pattern, kind, entries)->Ok_0.1;
            &&& forall|i: int|
                0 <= i < entries.len() && selected(pattern, #[trigger] entries[i])
                    ==> matched.contains(entries[i])
            &&& forall|i: int|
                0 <= i < entries.len() && !selected(pattern, #[trigger] entries[i])
                    ==> remainder.contains(entries[i])
            &&& forall|x: Entry| #[trigger] matched.contains(x) ==> selected(pattern, x)
            &&& forall|x: Entry| #[trigger] remainder.contains(x) ==> !selected(pattern, x)
        }),
{
    broadcast use vstd::seq_lib::group_filter_ensures;

    lemma_collect_partitions(pattern, kind, entries);
}

/// A helper for counting: two complementary predicates split the length
/// of a sequence between their filters.
proof fn lemma_filter_split_len(
    s: Seq<Entry>,
    p: spec_fn(Entry) -> bool,
    q: spec_fn(Entry) -> bool,
)
    requires
        forall|x: Entry| #[trigger] q(x) == !p(x),
    ensures
        s.filter(p).len() + s.filter(q).len() == s.len(),
    decreases s.len(),
{
    reveal(Seq::filter);
    if s.len() != 0 {
        lemma_filter_split_len(s.drop_last(), p, q);
    }
}

/// Count correctness: on a clean stream of N entries of which M match
/// the pattern, the collection has exactly M entries and the remainder
/// the other N - M.
pub proof fn lemma_count_correct(pattern: Seq<char>, kind: ValueKind, entries: Seq<Entry>)
    ensures
        clean(pattern, kind, entries) ==> ({
            let matched = collect_spec(pattern, kind, entries)->Ok_0.0;
            let remainder = collect_spec(pattern, kind, entries)->Ok_0.1;
            &&& matched.len() == entries.filter(|e: Entry| selected(pattern, e)).len()
            &&& matched.len() + remainder.len() == entries.len()
        }),
{
    lemma_collect_partitions(pattern, kind, entries);
    if clean(pattern, kind, entries) {
        lemma_filter_split_len(
            entries,
            |e: Entry| selected(pattern, e),
            |e: Entry| !selected(pattern, e),
        );
    }
}

/// Order preservation: on a clean stream the collection equals the
/// subsequence of input entries, in their original arrival order, whose
/// keys match the pattern.
pub proof fn lemma_order_preserved(pattern: Seq<char>, kind: ValueKind, entries: Seq<Entry>)
    ensures
        clean(pattern, kind, entries) ==> collect_spec(pattern, kind, entries)->Ok_0.0
            == entries.filter(|e: Entry| selected(pattern, e)),
{
    lemma_collect_partitions(pattern, kind, entries);
}

/// Projection failure aborts: one key whose projection reports an error
/// makes the whole decode fail, whatever the other entries hold.
pub proof fn lemma_projection_failure_aborts(
    pattern: Seq<char>,
    kind: ValueKind,
    entries: Seq<Entry>,
    i: int,
)
    ensures
        0 <= i < entries.len() && !has_text(entries[i].key) ==> collect_spec(
            pattern,
            kind,
            entries,
        ) is Err,
{
    lemma_collect_partitions(pattern, kind, entries);
    if 0 <= i < entries.len() && !has_text(entries[i].key) {
        assert(!entry_ok(pattern, kind, entries[i]));
    }
}

/// Value type mismatch propagates: one matched key whose paired value
/// does not decode as the declared kind makes the whole decode fail; the
/// entry is not skipped.
pub proof fn lemma_value_mismatch_aborts(
    pattern: Seq<char>,
    kind: ValueKind,
    entries: Seq<Entry>,
    i: int,
)
    ensures
        0 <= i < entries.len() && selected(pattern, entries[i]) && !fits(entries[i].value, kind)
            ==> collect_spec(pattern, kind, entries) is Err,
{
    lemma_collect_partitions(pattern, kind, entries);
    if 0 <= i < entries.len() && selected(pattern, entries[i]) && !fits(entries[i].value, kind) {
        assert(!entry_ok(pattern, kind, entries[i]));
    }
}

/// A helper for membership: an element of a filtered sequence satisfies
/// the predicate and comes from the original sequence.
proof fn lemma_filter_member(s: Seq<Entry>, pred: spec_fn(Entry) -> bool, x: Entry)
    requires
        s.filter(pred).contains(x),
    ensures
        pred(x),
        s.contains(x),
    decreases s.len(),
{
    reveal(Seq::filter);
    broadcast use vstd::seq_lib::group_filter_ensures;

    let j: int = choose|j: int| 0 <= j < s.filter(pred).len() && s.filter(pred)[j] == x;
    assert(pred(s.filter(pred)[j]));
    if s.len() != 0 {
        if x == s.last() {
            assert(s[s.len() - 1] == x);
        } else {
            let sub = s.drop_last().filter(pred);
            if pred(s.last()) {
                assert(s.filter(pred) == sub.push(s.last()));
                assert(sub[j] == x);
            } else {
                assert(s.filter(pred) == sub);
            }
            assert(sub.contains(x));
            lemma_filter_member(s.drop_last(), pred, x);
            let i: int = choose|i: int| 0 <= i < s.drop_last().len() && s.drop_last()[i] == x;
            assert(s[i] == x);
        }
    }
}

/// Disjoint sibling fields: when no entry of the stream matches both
/// patterns, each field's collection holds exactly the entries matching
/// its own pattern, no entry lands in both collections, and an entry
/// matching neither pattern lands in neither.
pub proof fn lemma_disjoint_fields(
    p1: Seq<char>,
    k1: ValueKind,
    p2: Seq<char>,
    k2: ValueKind,
    entries: Seq<Entry>,
)
    ensures
        (clean(p1, k1, entries) && clean(p2, k2, entries) && (forall|x: Entry|
            #[trigger] entries.contains(x) ==> !(selected(p1, x) && selected(p2, x)))) ==> ({
            let m1 = collect_spec(p1, k1, entries)->Ok_0.0;
            let m2 = collect_spec(p2, k2, entries)->Ok_0.0;
            &&& m1 == entries.filter(|e: Entry| selected(p1, e))
            &&& m2 == entries.filter(|e: Entry| selected(p2, e))
            &&& forall|x: Entry| !(#[trigger] m1.contains(x) && m2.contains(x))
            &&& forall|x: Entry|
                #[trigger] entries.contains(x) && !selected(p1, x) && !selected(p2, x)
                    ==> !m1.contains(x) && !m2.contains(x)
        }),
{
    broadcast use vstd::seq_lib::group_filter_ensures;

    lemma_collect_partitions(p1, k1, entries);
    lemma_collect_partitions(p2, k2, entries);
    if clean(p1, k1, entries) && clean(p2, k2, entries) && (forall|x: Entry|
        #[trigger] entries.contains(x) ==> !(selected(p1, x) && selected(p2, x))) {
        let m1 = collect_spec(p1, k1, entries)->Ok_0.0;
        let m2 = collect_spec(p2, k2, entries)->Ok_0.0;
        assert forall|x: Entry| !(#[trigger] m1.contains(x) && m2.contains(x)) by {
            if m1.contains(x) && m2.contains(x) {
                lemma_filter_member(entries, |e: Entry| selected(p1, e), x);
                lemma_filter_member(entries, |e: Entry| selected(p2, e), x);
            }
        }
        assert forall|x: Entry|
            #[trigger] entries.contains(x) && !selected(p1, x) && !selected(p2, x) implies !m1
            .contains(x) && !m2.contains(x) by {
            if m1.contains(x) {
                lemma_filter_member(entries, |e: Entry| selected(p1, e), x);
            }
            if m2.contains(x) {
                lemma_filter_member(entries, |e: Entry| selected(p2, e), x);
            }
        }
    }
}

} // verus!
