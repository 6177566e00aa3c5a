//! An in-memory runtime: relation edges and stored field values held as
//! plain values. It answers the planner's storage reads without a database,
//! for embedding and tests; every leaf condition passes.
use vstd::prelude::*;
use crate::query_planner::ir::{
    untyped_id, CursorValue, CursorView, EntityId, FilterOp, FilterPredicate, PredicateView,
    QueryValue, SortDirection, ValueView,
};
use crate::query_planner::physical_expr::copy_value;
use crate::query_planner::traits::{
    FieldMeta, NestedCandidateRequest, PlannerCatalog, PlannerRuntime, RelationMeta,
    SearchFieldMeta, TypeMeta, VectorFieldMeta,
};

verus! {

/// One stored relation edge `from --field--> to`.
#[derive(Debug, Clone)]
pub struct RelationEdge {
    pub from: u64,
    pub field: String,
    pub to: u64,
}

/// The stored value of one entity field.
#[derive(Debug)]
pub struct StoredValue {
    pub uid: u64,
    pub field: String,
    pub value: QueryValue,
}

/// Runtime over a fixed list of relation edges and stored field values.
pub struct TestRuntime {
    pub edges: Vec<RelationEdge>,
    pub stored: Vec<StoredValue>,
}

/// The value of the first stored entry for `uid` and `field`.
pub open spec fn stored_lookup(stored: Seq<StoredValue>, uid: u64, field: Seq<char>) -> Option<ValueView>
    decreases stored.len(),
{
    if stored.len() == 0 {
        None
    } else if stored[0].uid == uid && stored[0].field@ == field {
        Some(stored[0].value@)
    } else {
        stored_lookup(stored.drop_first(), uid, field)
    }
}

/// Targets of the edges leaving `from` through `field`, in edge order.
pub open spec fn edge_targets(edges: Seq<RelationEdge>, from: u64, field: Seq<char>) -> Seq<EntityId>
    decreases edges.len(),
{
    if edges.len() == 0 {
        Seq::empty()
    } else {
        let prev = edge_targets(edges.drop_last(), from, field);
        let e = edges.last();
        if e.from == from && e.field@ == field { prev.push(untyped_id(e.to)) } else { prev }
    }
}

/// Targets reached from each child in turn, concatenated.
pub open spec fn edge_targets_all(edges: Seq<RelationEdge>, children: Seq<u64>, field: Seq<char>) -> Seq<EntityId>
    decreases children.len(),
{
    if children.len() == 0 {
        Seq::empty()
    } else {
        edge_targets_all(edges, children.drop_last(), field) + edge_targets(edges, children.last(), field)
    }
}

/// A runtime with no stored data: every read answers empty.
pub fn runtime_for_test_stub() -> (r: TestRuntime)
    ensures
        r.edges@.len() == 0,
        r.stored@.len() == 0,
{
    TestRuntime { edges: Vec::new(), stored: Vec::new() }
}

impl TestRuntime {
    pub fn with_edges(edges: Vec<RelationEdge>) -> (r: Self)
        ensures
            r.edges == edges,
            r.stored@.len() == 0,
    {
        TestRuntime { edges, stored: Vec::new() }
    }

    pub fn with_stored(edges: Vec<RelationEdge>, stored: Vec<StoredValue>) -> (r: Self)
        ensures
            r.edges == edges,
            r.stored == stored,
    {
        TestRuntime { edges, stored }
    }

    fn targets(&self, from: u64, field: &str) -> (ids: Vec<EntityId>)
        ensures
            ids@ == edge_targets(self.edges@, from, field@),
    {
        let wanted: String = field.to_owned();
        let mut ids: Vec<EntityId> = Vec::new();
        let mut i: usize = 0;
        while i < self.edges.len()
            invariant
                i <= self.edges@.len(),
                wanted@ == field@,
                ids@ == edge_targets(self.edges@.take(i as int), from, field@),
            decreases self.edges@.len() - i,
        {
            proof {
                assert(self.edges@.take(i as int + 1).drop_last() =~= self.edges@.take(i as int));
            }
            let e = &self.edges[i];
            if e.from == from && e.field == wanted {
                ids.push(EntityId::new(e.to));
            }
            i = i + 1;
        }
        proof {
            assert(self.edges@.take(self.edges@.len() as int) =~= self.edges@);
        }
        ids
    }
}

impl PlannerRuntime for TestRuntime {
    open spec fn spec_related_ids(&self, parent: u64, field: Seq<char>) -> Result<Seq<EntityId>, Seq<char>> {
        Ok(edge_targets(self.edges@, parent, field))
    }

    open spec fn spec_reverse_related_ids(
        &self,
        child_type: Seq<char>,
        inverse_field: Seq<char>,
        child_uids: Seq<u64>,
    ) -> Result<Seq<EntityId>, Seq<char>> {
        Ok(edge_targets_all(self.edges@, child_uids, inverse_field))
    }

    open spec fn spec_text_search(
        &self,
        type_label: Seq<char>,
        field: Seq<char>,
        op: FilterOp,
        query: Seq<char>,
        limit: Option<usize>,
    ) -> Result<Seq<EntityId>, Seq<char>> {
        Ok(Seq::empty())
    }

    open spec fn spec_scan_type(&self, type_label: Seq<char>, cursor: Option<CursorView>, limit: Option<usize>) -> Result<Seq<EntityId>, Seq<char>> {
        Ok(Seq::empty())
    }

    open spec fn spec_lookup_unique(&self, type_label: Seq<char>, field: Seq<char>, value: ValueView) -> Result<Option<EntityId>, Seq<char>> {
        Ok(None)
    }

    open spec fn spec_ordered_scan(
        &self,
        type_label: Seq<char>,
        field: Seq<char>,
        direction: SortDirection,
        cursor: Option<CursorView>,
        limit: Option<usize>,
    ) -> Result<Seq<EntityId>, Seq<char>> {
        Ok(Seq::empty())
    }

    open spec fn spec_ordered_scan_with_fallback(
        &self,
        type_label: Seq<char>,
        field: Seq<char>,
        direction: SortDirection,
        cursor: Option<CursorView>,
        limit: Option<usize>,
    ) -> Result<Option<Seq<EntityId>>, Seq<char>> {
        Ok(Some(Seq::empty()))
    }

    open spec fn spec_candidate_ids(&self, type_label: Seq<char>, predicate: PredicateView) -> Result<Option<Seq<EntityId>>, Seq<char>> {
        Ok(None)
    }

    open spec fn spec_nested_candidates(
        &self,
        target_type: Seq<char>,
        filter: Seq<(Seq<char>, ValueView)>,
        uniques: Seq<Seq<char>>,
    ) -> Option<Seq<u64>> {
        None
    }

    fn scan_type(&self, type_label: &str, cursor: Option<&CursorValue>, limit: Option<usize>) -> (r: Result<Vec<EntityId>, String>) {
        Ok(Vec::new())
    }

    fn lookup_unique(&self, type_label: &str, field: &str, value: &QueryValue) -> (r: Result<Option<EntityId>, String>) {
        Ok(None)
    }

    fn ordered_scan(
        &self,
        type_label: &str,
        field: &str,
        direction: SortDirection,
        cursor: Option<&CursorValue>,
        limit: Option<usize>,
    ) -> (r: Result<Vec<EntityId>, String>) {
        Ok(Vec::new())
    }

    fn ordered_scan_with_fallback(
        &self,
        type_label: &str,
        field: &str,
        direction: SortDirection,
        cursor: Option<&CursorValue>,
        limit: Option<usize>,
    ) -> (r: Result<Option<Vec<EntityId>>, String>) {
        Ok(Some(Vec::new()))
    }

    fn candidate_ids(&self, type_label: &str, predicate: &FilterPredicate) -> (r: Result<Option<Vec<EntityId>>, String>) {
        Ok(None)
    }

    fn nested_candidates(&self, req: &NestedCandidateRequest) -> (r: Option<Vec<u64>>) {
        None
    }

    open spec fn spec_stored_field(&self, id: EntityId, field: Seq<char>) -> Option<ValueView> {
        stored_lookup(self.stored@, id.uid, field)
    }

    open spec fn spec_eval_condition(&self, stored: Option<ValueView>, condition: ValueView) -> bool {
        true
    }

    fn stored_field(&self, id: &EntityId, field: &str) -> (r: Option<QueryValue>) {
        let wanted: String = field.to_owned();
        let mut i: usize = 0;
        proof {
            assert(self.stored@.skip(0) =~= self.stored@);
        }
        while i < self.stored.len()
            invariant
                i <= self.stored@.len(),
                wanted@ == field@,
                stored_lookup(self.stored@, id.uid, field@) == stored_lookup(self.stored@.skip(i as int), id.uid, field@),
            decreases self.stored@.len() - i,
        {
            proof {
                assert(self.stored@.skip(i as int).drop_first() =~= self.stored@.skip(i as int + 1));
                assert(self.stored@.skip(i as int)[0] == self.stored@[i as int]);
            }
            let e = &self.stored[i];
            if e.uid == id.uid && e.field == wanted {
                return Some(copy_value(&e.value));
            }
            i = i + 1;
        }
        None
    }

    fn eval_condition(&self, stored: &Option<QueryValue>, condition: &QueryValue) -> (b: bool) {
        true
    }

    fn related_ids(&self, parent: &EntityId, field: &str) -> (r: Result<Vec<EntityId>, String>) {
        Ok(self.targets(parent.uid, field))
    }

    fn reverse_related_ids(&self, child_type: &str, inverse_field: &str, child_ids: &[EntityId]) -> (r: Result<Vec<EntityId>, String>) {
        let mut out: Vec<EntityId> = Vec::new();
        let mut i: usize = 0;
        while i < child_ids.len()
            invariant
                i <= child_ids@.len(),
                out@ == edge_targets_all(self.edges@, crate::query_planner::traits::uids_of(child_ids@.take(i as int)), inverse_field@),
            decreases child_ids@.len() - i,
        {
            proof {
                assert(crate::query_planner::traits::uids_of(child_ids@.take(i as int + 1)).drop_last()
                    =~= crate::query_planner::traits::uids_of(child_ids@.take(i as int)));
            }
            let mut more = self.targets(child_ids[i].uid, inverse_field);
            out.append(&mut more);
            i = i + 1;
        }
        proof {
            assert(child_ids@.take(child_ids@.len() as int) =~= child_ids@);
        }
        Ok(out)
    }

    fn text_search(
        &self,
        type_label: &str,
        field: &str,
        op: FilterOp,
        query: &str,
        limit: Option<usize>,
    ) -> (r: Result<Vec<EntityId>, String>) {
        Ok(Vec::new())
    }
}

impl PlannerCatalog for TestRuntime {
    fn type_meta(&self, type_label: &str) -> (r: Option<TypeMeta>)
        ensures
            r is None,
    {
        None
    }

    fn field_meta(&self, type_label: &str, field_name: &str) -> (r: Option<FieldMeta>)
        ensures
            r is None,
    {
        None
    }

    fn relation_meta(&self, type_label: &str, field_name: &str) -> (r: Option<RelationMeta>)
        ensures
            r is None,
    {
        None
    }

    fn unique_fields(&self, type_label: &str) -> (r: Vec<String>)
        ensures
            r@.len() == 0,
    {
        Vec::new()
    }

    fn search_fields(&self, type_label: &str) -> (r: Vec<SearchFieldMeta>)
        ensures
            r@.len() == 0,
    {
        Vec::new()
    }

    fn vector_field(&self, type_label: &str) -> (r: Option<VectorFieldMeta>)
        ensures
            r is None,
    {
        None
    }
}

} // verus!
