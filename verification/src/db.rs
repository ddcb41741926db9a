//! Merging batches of records into the document store by domain name.

use crate::document::{
    document_entries, entries, has_key, insert_document, insert_texts, lemma_document_keys, Value,
};
use crate::whois::{column_name, RecordView, WhoIsRecord};
use mongodb::bson::Document;
use vstd::prelude::*;
use vstd::string::*;

verus! {

/// The domain names of the records, in order.
pub open spec fn domain_names(records: Seq<RecordView>) -> Seq<Seq<char>> {
    Seq::new(records.len(), |i: int| records[i].domain_name)
}

/// The entries of the filter that matches every stored entity whose domain
/// name is one of `names`.
pub open spec fn filter_entries(names: Seq<Seq<char>>) -> Seq<(Seq<char>, Value)> {
    seq![(column_name(1), Value::Nested(seq![("$in"@, Value::Texts(names))]))]
}

/// Whether no later record of the batch has the domain name of record `i`.
pub open spec fn is_last(batch: Seq<RecordView>, i: int) -> bool {
    forall|j: int| i < j < batch.len() ==> (#[trigger] batch[j]).domain_name != batch[i].domain_name
}

/// Of the first `k` records of the batch, those whose domain name no later
/// record of the batch has, in the order of the batch.
pub open spec fn last_upto(batch: Seq<RecordView>, k: int) -> Seq<RecordView>
    decreases k,
{
    if k <= 0 {
        Seq::empty()
    } else if is_last(batch, k - 1) {
        last_upto(batch, k - 1).push(batch[k - 1])
    } else {
        last_upto(batch, k - 1)
    }
}

/// For each domain name of the batch the last record with that name, in the
/// order of the batch: the records that stand when the later record wins.
pub open spec fn last_of_each(batch: Seq<RecordView>) -> Seq<RecordView> {
    last_upto(batch, batch.len() as int)
}

/// The documents of the records, in order.
pub open spec fn documents_of(records: Seq<RecordView>) -> Seq<Seq<(Seq<char>, Value)>> {
    Seq::new(records.len(), |i: int| document_entries(records[i]))
}

/// What a plan asks of the store, as mathematical values: delete every
/// document whose domain name is one of `names`, then insert `documents`.
pub struct PlanView {
    pub names: Seq<Seq<char>>,
    pub documents: Seq<Seq<(Seq<char>, Value)>>,
}

/// The plan that merges a batch: it deletes the documents with the batch's
/// domain names and inserts, for each of these names, the document of the
/// last record of the batch with that name.
pub open spec fn plan_for(batch: Seq<RecordView>) -> PlanView {
    PlanView {
        names: domain_names(last_of_each(batch)),
        documents: documents_of(last_of_each(batch)),
    }
}

/// What merging one batch asks of the store: delete every document that
/// `filter` matches, then insert `documents`.
pub struct UpsertPlan {
    pub filter: Document,
    pub documents: Vec<Document>,
}

impl UpsertPlan {
    /// Whether the plan asks what `plan` says.
    pub open spec fn shows(&self, plan: PlanView) -> bool {
        &&& entries(self.filter) == filter_entries(plan.names)
        &&& self.documents.len() == plan.documents.len()
        &&& forall|i: int|
            0 <= i < self.documents.len() ==> entries(#[trigger] self.documents[i]) == plan.documents[i]
    }
}

/// Whether a later record of the batch has the domain name of record `i`.
fn occurs_later(records: &Vec<WhoIsRecord>, i: usize) -> (later: bool)
    requires
        i < records.len(),
    ensures
        later == !is_last(records.deep_view(), i as int),
{
    let ghost all = records.deep_view();
    let mut j: usize = i + 1;
    while j < records.len()
        invariant
            i < j <= records.len(),
            all == records.deep_view(),
            forall|k: int| i < k < j ==> (#[trigger] all[k]).domain_name != all[i as int].domain_name,
        decreases records.len() - j,
    {
        if records[j].domain_name.eq(&records[i].domain_name) {
            assert(all[j as int].domain_name == all[i as int].domain_name);
            return true;
        }
        j += 1;
    }
    false
}

/// Prepares the merge of one batch into the store, where a record takes the
/// place of the entity with its domain name or is new, and of two records
/// with one name the later stands: the filter that matches the stored
/// documents with the batch's domain names, and for each of these names the
/// document of the last record with that name, in the order of the batch.
/// The caller deletes what the filter matches and inserts the documents.
pub fn upsert(records: &Vec<WhoIsRecord>) -> (plan: UpsertPlan)
    ensures
        plan.shows(plan_for(records.deep_view())),
{
    let ghost all = records.deep_view();
    let mut documents: Vec<Document> = Vec::new();
    let mut names: Vec<String> = Vec::new();
    let mut i: usize = 0;
    while i < records.len()
        invariant
            i <= records.len(),
            all == records.deep_view(),
            documents.len() == last_upto(all, i as int).len(),
            names.len() == documents.len(),
            forall|k: int|
                0 <= k < documents.len() ==> entries(#[trigger] documents[k]) == document_entries(
                    last_upto(all, i as int)[k],
                ),
            forall|k: int|
                0 <= k < names.len() ==> (#[trigger] names[k])@ == last_upto(
                    all,
                    i as int,
                )[k].domain_name,
        decreases records.len() - i,
    {
        if !occurs_later(records, i) {
            let record = &records[i];
            let document = record.to_document();
            names.push(record.domain_name.clone());
            documents.push(document);
        }
        i += 1;
    }
    let ghost kept = last_of_each(all);
    assert(names.deep_view() =~= domain_names(kept));
    let mut among = Document::new();
    insert_texts(&mut among, "$in", names);
    let mut filter = Document::new();
    insert_document(&mut filter, "domain_name", among);
    proof {
        reveal_strlit("domain_name");
        assert(entries(among) =~= seq![("$in"@, Value::Texts(domain_names(kept)))]);
        assert(entries(filter) =~= filter_entries(domain_names(kept)));
    }
    UpsertPlan { filter, documents }
}

/// The store after a batch is merged into it record by record: each record
/// takes the place of the entity with its domain name, or is new; where the
/// batch holds a name twice, the later record stands.
pub open spec fn merge(store: Map<Seq<char>, RecordView>, batch: Seq<RecordView>) -> Map<
    Seq<char>,
    RecordView,
>
    decreases batch.len(),
{
    if batch.len() == 0 {
        store
    } else {
        merge(store, batch.drop_last()).insert(batch.last().domain_name, batch.last())
    }
}

/// The store after the batches are merged into it one after another.
pub open spec fn merge_all(store: Map<Seq<char>, RecordView>, batches: Seq<Seq<RecordView>>) -> Map<
    Seq<char>,
    RecordView,
>
    decreases batches.len(),
{
    if batches.len() == 0 {
        store
    } else {
        merge(merge_all(store, batches.drop_last()), batches.last())
    }
}

/// The entities that a batch holds by itself.
pub open spec fn entities_of(batch: Seq<RecordView>) -> Map<Seq<char>, RecordView> {
    merge(Map::empty(), batch)
}

/// Whether no two records of the batch share a domain name.
pub open spec fn names_distinct(batch: Seq<RecordView>) -> bool {
    forall|i: int, j: int|
        0 <= i < j < batch.len() ==> (#[trigger] batch[i]).domain_name != (#[trigger] batch[j]).domain_name
}

/// The domain name that a stored document holds: the text under the key of
/// the domain name, if there is one.
pub open spec fn stored_name(document: Seq<(Seq<char>, Value)>) -> Option<Seq<char>> {
    if has_key(document, column_name(1)) {
        match document[choose|i: int|
            0 <= i < document.len() && (#[trigger] document[i]).0 == column_name(1)].1 {
            Value::Text(name) => Some(name),
            _ => None,
        }
    } else {
        None
    }
}

/// Whether the filter of a plan matches the document: its domain name is
/// one of the names.
pub open spec fn is_matched(document: Seq<(Seq<char>, Value)>, names: Seq<Seq<char>>) -> bool {
    stored_name(document) matches Some(name) && names.contains(name)
}

/// The documents that the filter of a plan does not match, in their order.
pub open spec fn unmatched(
    documents: Seq<Seq<(Seq<char>, Value)>>,
    names: Seq<Seq<char>>,
) -> Seq<Seq<(Seq<char>, Value)>>
    decreases documents.len(),
{
    if documents.len() == 0 {
        Seq::empty()
    } else if is_matched(documents.last(), names) {
        unmatched(documents.drop_last(), names)
    } else {
        unmatched(documents.drop_last(), names).push(documents.last())
    }
}

/// The documents of the store after a plan is executed: those that the
/// filter matches are deleted, and the documents of the plan are inserted
/// after those that stay.
pub open spec fn executed(stored: Seq<Seq<(Seq<char>, Value)>>, plan: PlanView) -> Seq<
    Seq<(Seq<char>, Value)>,
> {
    unmatched(stored, plan.names) + plan.documents
}

/// The entities of the store after the plan of a batch is executed: those
/// whose domain name the batch does not hold, and after them the records of
/// the batch that stand.
pub open spec fn stored_after(stored: Seq<RecordView>, batch: Seq<RecordView>) -> Seq<RecordView> {
    remaining(stored, plan_for(batch).names) + last_of_each(batch)
}

/// The entities of the store after the plans of the batches are executed
/// one after another.
pub open spec fn stored_after_all(stored: Seq<RecordView>, batches: Seq<Seq<RecordView>>) -> Seq<
    RecordView,
>
    decreases batches.len(),
{
    if batches.len() == 0 {
        stored
    } else {
        stored_after(stored_after_all(stored, batches.drop_last()), batches.last())
    }
}

/// The documents of the store after the plans of the batches are executed
/// one after another.
pub open spec fn executed_all(
    stored: Seq<Seq<(Seq<char>, Value)>>,
    batches: Seq<Seq<RecordView>>,
) -> Seq<Seq<(Seq<char>, Value)>>
    decreases batches.len(),
{
    if batches.len() == 0 {
        stored
    } else {
        executed(executed_all(stored, batches.drop_last()), plan_for(batches.last()))
    }
}

/// The entities whose domain name is none of the names, in their order.
pub open spec fn remaining(stored: Seq<RecordView>, names: Seq<Seq<char>>) -> Seq<RecordView>
    decreases stored.len(),
{
    if stored.len() == 0 {
        Seq::empty()
    } else if names.contains(stored.last().domain_name) {
        remaining(stored.drop_last(), names)
    } else {
        remaining(stored.drop_last(), names).push(stored.last())
    }
}

/// A merged batch overrides the store name by name and leaves the other
/// entities as they were.
pub proof fn lemma_merge_overrides(store: Map<Seq<char>, RecordView>, batch: Seq<RecordView>)
    ensures
        merge(store, batch).dom() == store.dom().union(entities_of(batch).dom()),
        forall|name: Seq<char>| #[trigger]
            entities_of(batch).dom().contains(name) ==> merge(store, batch)[name] == entities_of(
                batch,
            )[name],
        forall|name: Seq<char>|
            !(#[trigger] entities_of(batch).dom().contains(name)) ==> merge(store, batch)[name]
                == store[name],
        forall|name: Seq<char>| #[trigger]
            entities_of(batch).dom().contains(name) <==> domain_names(batch).contains(name),
    decreases batch.len(),
{
    if batch.len() == 0 {
        assert(merge(store, batch).dom() =~= store.dom().union(entities_of(batch).dom()));
    } else {
        let init = batch.drop_last();
        lemma_merge_overrides(store, init);
        lemma_merge_overrides(Map::empty(), init);
        assert(merge(store, batch).dom() =~= store.dom().union(entities_of(batch).dom()));
        assert forall|name: Seq<char>| #[trigger]
            entities_of(batch).dom().contains(name) <==> domain_names(batch).contains(name) by {
            if domain_names(batch).contains(name) {
                let i = choose|i: int| 0 <= i < batch.len() && domain_names(batch)[i] == name;
                if i < init.len() {
                    assert(domain_names(init)[i] == name);
                }
            }
            if domain_names(init).contains(name) {
                let i = choose|i: int| 0 <= i < init.len() && domain_names(init)[i] == name;
                assert(domain_names(batch)[i] == name);
            }
            assert(domain_names(batch)[batch.len() - 1] == batch.last().domain_name);
        }
    }
}

/// In the merged store the entity of a domain name holds the attributes of
/// the last record of the batch with that name.
pub proof fn lemma_merge_later_wins(store: Map<Seq<char>, RecordView>, batch: Seq<RecordView>, i: int)
    requires
        0 <= i < batch.len(),
        forall|j: int| i < j < batch.len() ==> (#[trigger] batch[j]).domain_name != batch[i].domain_name,
    ensures
        merge(store, batch).dom().contains(batch[i].domain_name),
        merge(store, batch)[batch[i].domain_name] == batch[i],
    decreases batch.len(),
{
    if i < batch.len() - 1 {
        let init = batch.drop_last();
        assert(forall|j: int| 0 <= j < init.len() ==> init[j] == batch[j]);
        lemma_merge_later_wins(store, init, i);
    }
}

/// Merging the same records twice leaves the store as merging them once: one
/// entity for each distinct domain name, with the attributes of the most
/// recent record.
pub proof fn lemma_merge_idempotent(store: Map<Seq<char>, RecordView>, batch: Seq<RecordView>)
    ensures
        merge(merge(store, batch), batch) == merge(store, batch),
        forall|name: Seq<char>|
            merge(store, batch).dom().contains(name) <==> store.dom().contains(name) || domain_names(
                batch,
            ).contains(name),
        forall|i: int|
            0 <= i < batch.len() && (forall|j: int|
                i < j < batch.len() ==> (#[trigger] batch[j]).domain_name != batch[i].domain_name)
                ==> merge(store, batch)[(#[trigger] batch[i]).domain_name] == batch[i],
{
    assert forall|i: int|
        0 <= i < batch.len() && (forall|j: int|
            i < j < batch.len() ==> (#[trigger] batch[j]).domain_name != batch[i].domain_name) implies merge(
        store,
        batch,
    )[(#[trigger] batch[i]).domain_name] == batch[i] by {
        lemma_merge_later_wins(store, batch, i);
    }
    let once = merge(store, batch);
    lemma_merge_overrides(store, batch);
    lemma_merge_overrides(once, batch);
    let twice = merge(once, batch);
    assert forall|name: Seq<char>| twice.dom().contains(name) == once.dom().contains(name) by {
        let held = entities_of(batch).dom().contains(name);
    }
    assert forall|name: Seq<char>| once.dom().contains(name) implies twice[name] == once[name] by {
        let held = entities_of(batch).dom().contains(name);
    }
    assert(twice =~= once);
}

/// Merging a sequence of records batch by batch is merging it whole.
pub proof fn lemma_merge_all_is_merge(
    store: Map<Seq<char>, RecordView>,
    batches: Seq<Seq<RecordView>>,
)
    ensures
        merge_all(store, batches) == merge(store, crate::batch::concat(batches)),
    decreases batches.len(),
{
    if batches.len() > 0 {
        lemma_merge_all_is_merge(store, batches.drop_last());
        lemma_merge_concat(store, crate::batch::concat(batches.drop_last()), batches.last());
    }
}

/// Merging two runs of records one after the other is merging them joined.
pub proof fn lemma_merge_concat(
    store: Map<Seq<char>, RecordView>,
    first: Seq<RecordView>,
    second: Seq<RecordView>,
)
    ensures
        merge(merge(store, first), second) == merge(store, first + second),
    decreases second.len(),
{
    if second.len() == 0 {
        assert(first + second =~= first);
    } else {
        lemma_merge_concat(store, first, second.drop_last());
        assert((first + second).drop_last() =~= first + second.drop_last());
        assert((first + second).last() == second.last());
    }
}

/// Entities with distinct names are found under their names.
pub proof fn lemma_found_by_name(all: Seq<RecordView>, i: int)
    requires
        names_distinct(all),
        0 <= i < all.len(),
    ensures
        entities_of(all).dom().contains(all[i].domain_name),
        entities_of(all)[all[i].domain_name] == all[i],
{
    lemma_merge_later_wins(Map::empty(), all, i);
}

/// The document of a record holds the record's domain name.
pub proof fn lemma_stored_name(r: RecordView)
    ensures
        stored_name(document_entries(r)) == Some(r.domain_name),
{
    let document = document_entries(r);
    lemma_document_keys(r);
    assert(document[1].0 == column_name(1));
    let i = choose|i: int| 0 <= i < document.len() && (#[trigger] document[i]).0 == column_name(1);
    if i < 1 {
        assert(document[i].0 != document[1].0);
    } else if i > 1 {
        assert(document[1].0 != document[i].0);
    }
}

/// Whether `r` is one of the first `k` records of the batch and no later
/// record of the batch has its domain name.
pub open spec fn stands(batch: Seq<RecordView>, k: int, r: RecordView) -> bool {
    exists|i: int| 0 <= i < k && is_last(batch, i) && #[trigger] batch[i] == r
}

/// The records that stand are records of the batch that no later record
/// overrides, no two of them share a domain name, and every such record of
/// the batch is among them.
pub proof fn lemma_last_upto(batch: Seq<RecordView>, k: int)
    requires
        0 <= k <= batch.len(),
    ensures
        names_distinct(last_upto(batch, k)),
        forall|m: int|
            0 <= m < last_upto(batch, k).len() ==> stands(batch, k, #[trigger] last_upto(batch, k)[m]),
        forall|i: int|
            0 <= i < k && is_last(batch, i) ==> last_upto(batch, k).contains(#[trigger] batch[i]),
    decreases k,
{
    if k > 0 {
        lemma_last_upto(batch, k - 1);
        let before = last_upto(batch, k - 1);
        let now = last_upto(batch, k);
        assert forall|m: int| 0 <= m < before.len() implies stands(batch, k, #[trigger] before[m]) by {
            let i = choose|i: int| 0 <= i < k - 1 && is_last(batch, i) && #[trigger] batch[i] == before[m];
            assert(0 <= i < k && is_last(batch, i) && batch[i] == before[m]);
        }
        if is_last(batch, k - 1) {
            assert(now.drop_last() =~= before);
            assert forall|m: int| 0 <= m < now.len() implies stands(batch, k, #[trigger] now[m]) by {
                if m < before.len() {
                    assert(now[m] == before[m]);
                } else {
                    assert(batch[k - 1] == now[m]);
                }
            }
            assert forall|i: int| 0 <= i < k && is_last(batch, i) implies now.contains(
                #[trigger] batch[i],
            ) by {
                if i < k - 1 {
                    let m = choose|m: int| 0 <= m < before.len() && before[m] == batch[i];
                    assert(now[m] == batch[i]);
                } else {
                    assert(now[now.len() - 1] == batch[i]);
                }
            }
            assert forall|m: int, n: int| 0 <= m < n < now.len() implies (#[trigger] now[m]).domain_name
                != (#[trigger] now[n]).domain_name by {
                if n < before.len() {
                    assert(before[m].domain_name != before[n].domain_name);
                } else {
                    assert(stands(batch, k - 1, before[m]));
                    let i = choose|i: int|
                        0 <= i < k - 1 && is_last(batch, i) && #[trigger] batch[i] == before[m];
                    assert(batch[k - 1].domain_name != batch[i].domain_name);
                }
            }
        } else {
            assert forall|i: int| 0 <= i < k && is_last(batch, i) implies now.contains(
                #[trigger] batch[i],
            ) by {
                assert(i < k - 1);
            }
        }
    }
}

/// A domain name of the batch has a last record with that name.
pub proof fn lemma_last_occurrence(batch: Seq<RecordView>, name: Seq<char>) -> (i: int)
    requires
        domain_names(batch).contains(name),
    ensures
        0 <= i < batch.len(),
        batch[i].domain_name == name,
        is_last(batch, i),
    decreases batch.len(),
{
    let at = choose|at: int| 0 <= at < batch.len() && domain_names(batch)[at] == name;
    let end = batch.len() - 1;
    if batch[end].domain_name == name {
        end
    } else {
        let init = batch.drop_last();
        assert(forall|j: int| 0 <= j < init.len() ==> init[j] == batch[j]);
        assert(domain_names(init)[at] == name);
        let i = lemma_last_occurrence(init, name);
        assert forall|j: int| i < j < batch.len() implies (#[trigger] batch[j]).domain_name
            != batch[i].domain_name by {
            if j < end {
                assert(init[j].domain_name != init[i].domain_name);
            }
        }
        i
    }
}

/// The records that stand make the entities that the whole batch makes.
pub proof fn lemma_latest_stand(batch: Seq<RecordView>)
    ensures
        names_distinct(last_of_each(batch)),
        entities_of(last_of_each(batch)) == entities_of(batch),
        forall|name: Seq<char>|
            domain_names(last_of_each(batch)).contains(name) <==> domain_names(batch).contains(name),
{
    let kept = last_of_each(batch);
    let left = entities_of(kept);
    let right = entities_of(batch);
    lemma_last_upto(batch, batch.len() as int);
    lemma_merge_overrides(Map::empty(), kept);
    lemma_merge_overrides(Map::empty(), batch);
    assert forall|name: Seq<char>|
        domain_names(kept).contains(name) <==> domain_names(batch).contains(name) by {
        if domain_names(kept).contains(name) {
            let m = choose|m: int| 0 <= m < kept.len() && domain_names(kept)[m] == name;
            assert(stands(batch, batch.len() as int, kept[m]));
            let i = choose|i: int|
                0 <= i < batch.len() && is_last(batch, i) && #[trigger] batch[i] == kept[m];
            assert(domain_names(batch)[i] == name);
        }
        if domain_names(batch).contains(name) {
            let i = lemma_last_occurrence(batch, name);
            assert(kept.contains(batch[i]));
            let m = choose|m: int| 0 <= m < kept.len() && kept[m] == batch[i];
            assert(domain_names(kept)[m] == name);
        }
    }
    assert forall|name: Seq<char>|
        #![trigger left.dom().contains(name)]
        #![trigger right.dom().contains(name)]
        left.dom().contains(name) == right.dom().contains(name) && (left.dom().contains(name)
            ==> left[name] == right[name]) by {
        if domain_names(batch).contains(name) {
            let i = lemma_last_occurrence(batch, name);
            lemma_merge_later_wins(Map::empty(), batch, i);
            assert(kept.contains(batch[i]));
            let m = choose|m: int| 0 <= m < kept.len() && kept[m] == batch[i];
            lemma_found_by_name(kept, m);
        }
    }
    assert(left =~= right);
}

/// What stays of entities with distinct names has distinct names, none of
/// which is one of the names, and makes the store without those names.
pub proof fn lemma_remaining(stored: Seq<RecordView>, names: Seq<Seq<char>>)
    ensures
        entities_of(remaining(stored, names)) == entities_of(stored).remove_keys(names.to_set()),
        forall|m: int|
            0 <= m < remaining(stored, names).len() ==> !names.contains(
                (#[trigger] remaining(stored, names)[m]).domain_name,
            ) && domain_names(stored).contains(remaining(stored, names)[m].domain_name),
        names_distinct(stored) ==> names_distinct(remaining(stored, names)),
    decreases stored.len(),
{
    let rest = remaining(stored, names);
    if stored.len() == 0 {
        assert(entities_of(rest) =~= entities_of(stored).remove_keys(names.to_set()));
    } else {
        let init = stored.drop_last();
        let last = stored.last();
        let before = remaining(init, names);
        assert(forall|j: int| 0 <= j < init.len() ==> init[j] == stored[j]);
        lemma_remaining(init, names);
        assert(names.to_set().contains(last.domain_name) == names.contains(last.domain_name));
        assert forall|m: int| 0 <= m < before.len() implies domain_names(stored).contains(
            (#[trigger] before[m]).domain_name,
        ) by {
            let j = choose|j: int|
                0 <= j < init.len() && domain_names(init)[j] == before[m].domain_name;
            assert(domain_names(stored)[j] == before[m].domain_name);
        }
        if names.contains(last.domain_name) {
            assert(entities_of(rest) =~= entities_of(stored).remove_keys(names.to_set()));
        } else {
            assert(rest.drop_last() =~= before);
            assert(domain_names(stored)[stored.len() - 1] == last.domain_name);
            assert(entities_of(rest) =~= entities_of(stored).remove_keys(names.to_set()));
            if names_distinct(stored) {
                assert(names_distinct(init));
                assert forall|m: int, n: int| 0 <= m < n < rest.len() implies (#[trigger] rest[m]).domain_name
                    != (#[trigger] rest[n]).domain_name by {
                    if n < before.len() {
                        assert(before[m].domain_name != before[n].domain_name);
                    } else {
                        let j = choose|j: int|
                            0 <= j < init.len() && domain_names(init)[j] == before[m].domain_name;
                        assert(stored[j].domain_name != stored[stored.len() - 1].domain_name);
                    }
                }
            }
        }
    }
}

/// Of the documents of entities, the filter leaves the documents of the
/// entities whose domain name is none of the names.
pub proof fn lemma_unmatched_documents(stored: Seq<RecordView>, names: Seq<Seq<char>>)
    ensures
        unmatched(documents_of(stored), names) == documents_of(remaining(stored, names)),
    decreases stored.len(),
{
    let documents = documents_of(stored);
    if stored.len() == 0 {
        assert(unmatched(documents, names) =~= documents_of(remaining(stored, names)));
    } else {
        let init = stored.drop_last();
        lemma_unmatched_documents(init, names);
        lemma_stored_name(stored.last());
        assert(documents.drop_last() =~= documents_of(init));
        assert(documents.last() == document_entries(stored.last()));
        assert(unmatched(documents, names) =~= documents_of(remaining(stored, names)));
    }
}

/// Executing the plan of a batch merges the batch. Where the store holds
/// the documents of entities with distinct domain names, deleting what the
/// filter matches and inserting the documents of the plan leaves the
/// documents of entities with distinct domain names again: the entities that
/// merging the batch record by record leaves, of which each carries every
/// attribute of its record. This holds of every batch, also of one that
/// holds a domain name more than once.
pub proof fn lemma_delete_then_insert_is_merge(stored: Seq<RecordView>, batch: Seq<RecordView>)
    requires
        names_distinct(stored),
    ensures
        executed(documents_of(stored), plan_for(batch)) == documents_of(stored_after(stored, batch)),
        names_distinct(stored_after(stored, batch)),
        entities_of(stored_after(stored, batch)) == merge(entities_of(stored), batch),
{
    let names = plan_for(batch).names;
    let kept = last_of_each(batch);
    let rest = remaining(stored, names);
    let after = rest + kept;
    lemma_unmatched_documents(stored, names);
    assert(documents_of(rest) + documents_of(kept) =~= documents_of(after));
    lemma_remaining(stored, names);
    lemma_latest_stand(batch);
    assert forall|m: int, n: int| 0 <= m < n < after.len() implies (#[trigger] after[m]).domain_name
        != (#[trigger] after[n]).domain_name by {
        if n < rest.len() {
            assert(rest[m].domain_name != rest[n].domain_name);
        } else if m >= rest.len() {
            assert(kept[m - rest.len()].domain_name != kept[n - rest.len()].domain_name);
        } else {
            assert(domain_names(kept)[n - rest.len()] == kept[n - rest.len()].domain_name);
            assert(!names.contains(rest[m].domain_name));
        }
    }
    lemma_merge_concat(Map::empty(), rest, kept);
    let left = merge(entities_of(rest), kept);
    let right = merge(entities_of(stored), batch);
    lemma_merge_overrides(entities_of(rest), kept);
    lemma_merge_overrides(entities_of(stored), batch);
    lemma_merge_overrides(Map::empty(), kept);
    lemma_merge_overrides(Map::empty(), batch);
    assert forall|name: Seq<char>|
        #![trigger left.dom().contains(name)]
        #![trigger right.dom().contains(name)]
        left.dom().contains(name) == right.dom().contains(name) && (left.dom().contains(name)
            ==> left[name] == right[name]) by {
        let held = entities_of(batch).dom().contains(name);
        assert(names.to_set().contains(name) == names.contains(name));
    }
    assert(left =~= right);
}

/// Executing the plans of batches one after another merges the batches one
/// after another: the store holds the documents of entities with distinct
/// domain names throughout, and in the end those of the entities that
/// merging the batches leaves. So what is proved of merging, that the later
/// record wins, that merging twice is merging once, and that the order of
/// batches that agree is immaterial, holds of the store that the plans are
/// executed on.
pub proof fn lemma_executing_plans_is_merging(stored: Seq<RecordView>, batches: Seq<Seq<RecordView>>)
    requires
        names_distinct(stored),
    ensures
        executed_all(documents_of(stored), batches) == documents_of(stored_after_all(stored, batches)),
        names_distinct(stored_after_all(stored, batches)),
        entities_of(stored_after_all(stored, batches)) == merge_all(entities_of(stored), batches),
    decreases batches.len(),
{
    if batches.len() > 0 {
        lemma_executing_plans_is_merging(stored, batches.drop_last());
        lemma_delete_then_insert_is_merge(stored_after_all(stored, batches.drop_last()), batches.last());
    }
}

/// Whether some batch holds an entity with the domain name.
pub open spec fn holds(batches: Seq<Seq<RecordView>>, name: Seq<char>) -> bool {
    exists|i: int| 0 <= i < batches.len() && #[trigger] entities_of(batches[i]).dom().contains(name)
}

/// Whether the batches agree on every domain name that more than one of them
/// holds: the entity that one batch leaves for the name is the entity that
/// the other leaves.
pub open spec fn consistent(batches: Seq<Seq<RecordView>>) -> bool {
    forall|i: int, j: int, name: Seq<char>|
        0 <= i < batches.len() && 0 <= j < batches.len() && #[trigger] entities_of(
            batches[i],
        ).dom().contains(name) && #[trigger] entities_of(batches[j]).dom().contains(name)
            ==> entities_of(batches[i])[name] == entities_of(batches[j])[name]
}

/// Whether `order` names each of `count` units exactly once.
pub open spec fn runs_each_once(order: Seq<int>, count: nat) -> bool {
    &&& order.len() == count
    &&& forall|p: int| 0 <= p < order.len() ==> 0 <= #[trigger] order[p] < count
    &&& forall|unit: int| 0 <= unit < count ==> #[trigger] order.contains(unit)
}

/// The batches in the order in which they were committed.
pub open spec fn arranged(batches: Seq<Seq<RecordView>>, order: Seq<int>) -> Seq<Seq<RecordView>> {
    Seq::new(order.len(), |p: int| batches[order[p]])
}

/// Where batches agree, the store after all of them holds for each domain
/// name what any batch with that name holds, and what it held before for
/// the names that no batch holds.
pub proof fn lemma_merge_all_by_name(
    store: Map<Seq<char>, RecordView>,
    batches: Seq<Seq<RecordView>>,
    name: Seq<char>,
)
    requires
        consistent(batches),
    ensures
        holds(batches, name) ==> merge_all(store, batches).dom().contains(name),
        forall|i: int|
            0 <= i < batches.len() && #[trigger] entities_of(batches[i]).dom().contains(name)
                ==> merge_all(store, batches)[name] == entities_of(batches[i])[name],
        !holds(batches, name) ==> merge_all(store, batches).dom().contains(name)
            == store.dom().contains(name),
        !holds(batches, name) ==> merge_all(store, batches)[name] == store[name],
    decreases batches.len(),
{
    if batches.len() > 0 {
        let init = batches.drop_last();
        let last = batches.last();
        assert(forall|i: int| 0 <= i < init.len() ==> init[i] == batches[i]);
        assert(consistent(init)) by {
            assert forall|i: int, j: int, n: Seq<char>|
                0 <= i < init.len() && 0 <= j < init.len() && #[trigger] entities_of(
                    init[i],
                ).dom().contains(n) && #[trigger] entities_of(init[j]).dom().contains(n) implies entities_of(
                init[i],
            )[n] == entities_of(init[j])[n] by {
                assert(entities_of(batches[i]).dom().contains(n));
                assert(entities_of(batches[j]).dom().contains(n));
            }
        }
        lemma_merge_all_by_name(store, init, name);
        lemma_merge_overrides(merge_all(store, init), last);
        let at_last = entities_of(batches[batches.len() - 1]).dom().contains(name);
        if holds(init, name) {
            let i = choose|i: int| 0 <= i < init.len() && #[trigger] entities_of(init[i]).dom().contains(name);
            assert(entities_of(batches[i]).dom().contains(name));
        }
        if !holds(batches, name) {
            assert(!at_last);
            assert(!holds(init, name)) by {
                if holds(init, name) {
                    let i = choose|i: int| 0 <= i < init.len() && #[trigger] entities_of(init[i]).dom().contains(name);
                    assert(entities_of(batches[i]).dom().contains(name));
                }
            }
        }
        assert forall|i: int|
            0 <= i < batches.len() && #[trigger] entities_of(batches[i]).dom().contains(
                name,
            ) implies merge_all(store, batches)[name] == entities_of(batches[i])[name] by {
            if at_last {
            } else {
                assert(i < init.len());
                assert(entities_of(init[i]).dom().contains(name));
            }
        }
    }
}

/// Where the batches agree on the domain names that they share, the order in
/// which they are committed does not show in the store: any two orders that
/// commit every batch once leave the same entities. This is what makes the
/// store's content independent of the concurrency limit, under which only
/// the order of completion varies.
pub proof fn lemma_order_is_immaterial(
    store: Map<Seq<char>, RecordView>,
    batches: Seq<Seq<RecordView>>,
    first: Seq<int>,
    second: Seq<int>,
)
    requires
        consistent(batches),
        runs_each_once(first, batches.len()),
        runs_each_once(second, batches.len()),
    ensures
        merge_all(store, arranged(batches, first)) == merge_all(store, arranged(batches, second)),
{
    let one = arranged(batches, first);
    let two = arranged(batches, second);
    lemma_arranged_consistent(batches, first);
    lemma_arranged_consistent(batches, second);
    let left = merge_all(store, one);
    let right = merge_all(store, two);
    assert forall|name: Seq<char>|
        #![trigger left.dom().contains(name)]
        #![trigger right.dom().contains(name)]
        left.dom().contains(name) == right.dom().contains(name) && left[name] == right[name] by {
        lemma_merge_all_by_name(store, one, name);
        lemma_merge_all_by_name(store, two, name);
        lemma_arranged_holds(batches, first, name);
        lemma_arranged_holds(batches, second, name);
        if holds(batches, name) {
            let i = choose|i: int| 0 <= i < batches.len() && #[trigger] entities_of(batches[i]).dom().contains(name);
            let p = choose|p: int| 0 <= p < first.len() && first[p] == i;
            let q = choose|q: int| 0 <= q < second.len() && second[q] == i;
            assert(first.contains(i) && second.contains(i));
            assert(one[p] == batches[i] && two[q] == batches[i]);
            assert(entities_of(one[p]).dom().contains(name));
            assert(entities_of(two[q]).dom().contains(name));
        }
    }
    assert(left =~= right);
}

/// Ingesting the same batches twice, in whatever two orders, leaves the
/// store as ingesting them once does, where the batches agree on the domain
/// names that they share.
pub proof fn lemma_ingest_twice_any_order(
    store: Map<Seq<char>, RecordView>,
    batches: Seq<Seq<RecordView>>,
    first: Seq<int>,
    second: Seq<int>,
)
    requires
        consistent(batches),
        runs_each_once(first, batches.len()),
        runs_each_once(second, batches.len()),
    ensures
        merge_all(merge_all(store, arranged(batches, first)), arranged(batches, second)) == merge_all(
            store,
            arranged(batches, first),
        ),
{
    let one = arranged(batches, first);
    let two = arranged(batches, second);
    lemma_arranged_consistent(batches, first);
    lemma_arranged_consistent(batches, second);
    let once = merge_all(store, one);
    let twice = merge_all(once, two);
    assert forall|name: Seq<char>|
        #![trigger once.dom().contains(name)]
        #![trigger twice.dom().contains(name)]
        once.dom().contains(name) == twice.dom().contains(name) && once[name] == twice[name] by {
        lemma_merge_all_by_name(store, one, name);
        lemma_merge_all_by_name(once, two, name);
        lemma_arranged_holds(batches, first, name);
        lemma_arranged_holds(batches, second, name);
        if holds(batches, name) {
            let i = choose|i: int| 0 <= i < batches.len() && #[trigger] entities_of(batches[i]).dom().contains(name);
            assert(first.contains(i) && second.contains(i));
            let p = choose|p: int| 0 <= p < first.len() && first[p] == i;
            let q = choose|q: int| 0 <= q < second.len() && second[q] == i;
            assert(one[p] == batches[i] && two[q] == batches[i]);
            assert(entities_of(one[p]).dom().contains(name));
            assert(entities_of(two[q]).dom().contains(name));
        }
    }
    assert(once =~= twice);
}

/// Batches that agree still agree in any order.
proof fn lemma_arranged_consistent(batches: Seq<Seq<RecordView>>, order: Seq<int>)
    requires
        consistent(batches),
        runs_each_once(order, batches.len()),
    ensures
        consistent(arranged(batches, order)),
{
    let moved = arranged(batches, order);
    assert forall|i: int, j: int, name: Seq<char>|
        0 <= i < moved.len() && 0 <= j < moved.len() && #[trigger] entities_of(moved[i]).dom().contains(
            name,
        ) && #[trigger] entities_of(moved[j]).dom().contains(name) implies entities_of(moved[i])[name]
        == entities_of(moved[j])[name] by {
        assert(entities_of(batches[order[i]]).dom().contains(name));
        assert(entities_of(batches[order[j]]).dom().contains(name));
    }
}

/// Batches in any order hold the domain names that they hold in the first order.
proof fn lemma_arranged_holds(batches: Seq<Seq<RecordView>>, order: Seq<int>, name: Seq<char>)
    requires
        runs_each_once(order, batches.len()),
    ensures
        holds(arranged(batches, order), name) == holds(batches, name),
{
    let moved = arranged(batches, order);
    if holds(moved, name) {
        let p = choose|p: int| 0 <= p < moved.len() && #[trigger] entities_of(moved[p]).dom().contains(name);
        assert(entities_of(batches[order[p]]).dom().contains(name));
    }
    if holds(batches, name) {
        let i = choose|i: int| 0 <= i < batches.len() && #[trigger] entities_of(batches[i]).dom().contains(name);
        assert(order.contains(i));
        let p = choose|p: int| 0 <= p < order.len() && order[p] == i;
        assert(moved[p] == batches[i]);
        assert(entities_of(moved[p]).dom().contains(name));
    }
}

} // verus!
