//! The query algebra: single use-case queries with optional
//! order-preserving range bounds, compound and/or combinations, and
//! lookups by identifier.
//!
//! Range bounds are carried as signed 64-bit values, the plaintext domain
//! of the order-preserving encoding; comparisons on them are exact.

use vstd::prelude::*;

verus! {

/// How the branches of a compound query are combined.
#[derive(Debug, Clone, Copy, PartialEq, Eq, Structural)]
pub enum QueryType {
    And,
    Or,
}

/// The root query type: one use-case index, a boolean combination, or a
/// lookup by one or many identifiers.
#[derive(Debug, PartialEq, Eq)]
pub enum Query {
    Single(SingleQuery),
    Compound(CompoundQuery),
    GetById { id: String, collection: String },
    GetByIds { ids: Vec<String>, collection: String },
}

/// Mathematical shape of a [`Query`].
pub enum QueryV {
    Single(SingleQueryV),
    Compound(CompoundQueryV),
    GetById { id: Seq<char>, collection: Seq<char> },
    GetByIds { ids: Seq<Seq<char>>, collection: Seq<char> },
}

/// One collection, one use case, and optional inclusive range bounds on
/// the stored values.
#[derive(Debug, Clone, PartialEq, Eq)]
pub struct SingleQuery {
    pub collection: String,
    pub usecase: String,
    pub upper_limit: Option<i64>,
    pub lower_limit: Option<i64>,
}

pub struct SingleQueryV {
    pub collection: Seq<char>,
    pub usecase: Seq<char>,
    pub upper_limit: Option<i64>,
    pub lower_limit: Option<i64>,
}

impl View for SingleQuery {
    type V = SingleQueryV;

    open spec fn view(&self) -> SingleQueryV {
        SingleQueryV {
            collection: self.collection@,
            usecase: self.usecase@,
            upper_limit: self.upper_limit,
            lower_limit: self.lower_limit,
        }
    }
}

impl SingleQuery {
    /// A query over one collection and use case, with no range bounds.
    pub fn new(collection: String, usecase: String) -> (r: Self)
        ensures
            r@.collection == collection@,
            r@.usecase == usecase@,
            r@.upper_limit is None,
            r@.lower_limit is None,
    {
        SingleQuery { collection, usecase, upper_limit: None, lower_limit: None }
    }
}

/// Several queries combined under one [`QueryType`].
#[derive(Debug, PartialEq, Eq)]
pub struct CompoundQuery {
    pub query_type: QueryType,
    pub queries: Vec<Query>,
}

pub struct CompoundQueryV {
    pub query_type: QueryType,
    pub queries: Seq<QueryV>,
}

/// The view of one query; recursion goes through the branch list of a
/// compound query.
pub open spec fn spec_query_view(q: Query) -> QueryV
    decreases q,
{
    match q {
        Query::Single(s) => QueryV::Single(s@),
        Query::Compound(c) => QueryV::Compound(
            CompoundQueryV { query_type: c.query_type, queries: spec_queries_view(c.queries@) },
        ),
        Query::GetById { id, collection } => QueryV::GetById {
            id: id@,
            collection: collection@,
        },
        Query::GetByIds { ids, collection } => QueryV::GetByIds {
            ids: ids.deep_view(),
            collection: collection@,
        },
    }
}

/// The views of a list of queries, in order.
pub open spec fn spec_queries_view(qs: Seq<Query>) -> Seq<QueryV>
    decreases qs,
{
    if qs.len() == 0 {
        Seq::empty()
    } else {
        spec_queries_view(qs.drop_last()).push(spec_query_view(qs.last()))
    }
}

/// `spec_queries_view` maps the view over the list pointwise.
pub proof fn lemma_queries_view_index(qs: Seq<Query>)
    ensures
        spec_queries_view(qs).len() == qs.len(),
        forall|i: int|
            0 <= i < qs.len() ==> #[trigger] spec_queries_view(qs)[i] == spec_query_view(qs[i]),
    decreases qs,
{
    if qs.len() > 0 {
        lemma_queries_view_index(qs.drop_last());
    }
}

impl View for CompoundQuery {
    type V = CompoundQueryV;

    open spec fn view(&self) -> CompoundQueryV {
        CompoundQueryV { query_type: self.query_type, queries: spec_queries_view(self.queries@) }
    }
}

impl View for Query {
    type V = QueryV;

    open spec fn view(&self) -> QueryV {
        spec_query_view(*self)
    }
}

impl CompoundQuery {
    /// Combines `queries` under `query_type`.
    pub fn new(query_type: QueryType, queries: Vec<Query>) -> (r: Self)
        ensures
            r@.query_type == query_type,
            r@.queries == spec_queries_view(queries@),
    {
        CompoundQuery { query_type, queries }
    }
}

/// Step-by-step construction of a [`SingleQuery`].
#[derive(Debug)]
pub struct SingleQueryBuilder {
    pub collection: String,
    pub usecase: String,
    pub upper_limit: Option<i64>,
    pub lower_limit: Option<i64>,
}

impl Default for SingleQueryBuilder {
    /// An empty builder: empty names and no range bounds.
    fn default() -> (r: Self)
        ensures
            r@.collection == Seq::<char>::empty(),
            r@.usecase == Seq::<char>::empty(),
            r@.upper_limit is None,
            r@.lower_limit is None,
    {
        SingleQueryBuilder::new()
    }
}

impl SingleQueryBuilder {
    /// An empty builder: empty names and no range bounds.
    pub fn new() -> (r: Self)
        ensures
            r@.collection == Seq::<char>::empty(),
            r@.usecase == Seq::<char>::empty(),
            r@.upper_limit is None,
            r@.lower_limit is None,
    {
        SingleQueryBuilder {
            collection: String::new(),
            usecase: String::new(),
            upper_limit: None,
            lower_limit: None,
        }
    }

    pub fn with_collection(self, collection: String) -> (r: Self)
        ensures
            r@ == (SingleQueryV { collection: collection@, ..self@ }),
    {
        SingleQueryBuilder { collection, ..self }
    }

    pub fn with_usecase(self, usecase: String) -> (r: Self)
        ensures
            r@ == (SingleQueryV { usecase: usecase@, ..self@ }),
    {
        SingleQueryBuilder { usecase, ..self }
    }

    /// Keeps only values at most `value`.
    pub fn with_encrypted_field_less_than(self, value: i64) -> (r: Self)
        ensures
            r@ == (SingleQueryV { upper_limit: Some(value), ..self@ }),
    {
        SingleQueryBuilder { upper_limit: Some(value), ..self }
    }

    /// Keeps only values at least `value`.
    pub fn with_encrypted_field_higher_than(self, value: i64) -> (r: Self)
        ensures
            r@ == (SingleQueryV { lower_limit: Some(value), ..self@ }),
    {
        SingleQueryBuilder { lower_limit: Some(value), ..self }
    }

    pub fn build(self) -> (r: SingleQuery)
        ensures
            r@ == self@,
    {
        SingleQuery {
            collection: self.collection,
            usecase: self.usecase,
            upper_limit: self.upper_limit,
            lower_limit: self.lower_limit,
        }
    }
}

impl View for SingleQueryBuilder {
    type V = SingleQueryV;

    open spec fn view(&self) -> SingleQueryV {
        SingleQueryV {
            collection: self.collection@,
            usecase: self.usecase@,
            upper_limit: self.upper_limit,
            lower_limit: self.lower_limit,
        }
    }
}

/// Step-by-step construction of a [`CompoundQuery`].
#[derive(Debug)]
pub struct CompoundQueryBuilder {
    pub query_type: QueryType,
    pub queries: Vec<Query>,
}

impl View for CompoundQueryBuilder {
    type V = CompoundQueryV;

    open spec fn view(&self) -> CompoundQueryV {
        CompoundQueryV { query_type: self.query_type, queries: spec_queries_view(self.queries@) }
    }
}

impl Default for CompoundQueryBuilder {
    /// An empty conjunction.
    fn default() -> (r: Self)
        ensures
            r@.query_type == QueryType::And,
            r@.queries == Seq::<QueryV>::empty(),
    {
        CompoundQueryBuilder::new()
    }
}

impl CompoundQueryBuilder {
    /// An empty conjunction.
    pub fn new() -> (r: Self)
        ensures
            r@.query_type == QueryType::And,
            r@.queries == Seq::<QueryV>::empty(),
    {
        let r = CompoundQueryBuilder { query_type: QueryType::And, queries: Vec::new() };
        assert(r@.queries =~= Seq::<QueryV>::empty());
        r
    }

    pub fn with_query_type(self, query_type: QueryType) -> (r: Self)
        ensures
            r@ == (CompoundQueryV { query_type, ..self@ }),
    {
        CompoundQueryBuilder { query_type, ..self }
    }

    /// Appends one branch.
    pub fn with_query(self, query: Query) -> (r: Self)
        ensures
            r@.query_type == self@.query_type,
            r@.queries == self@.queries.push(query@),
    {
        let ghost qs0 = self.queries@;
        let mut queries = self.queries;
        queries.push(query);
        proof {
            assert(queries@.drop_last() =~= qs0);
        }
        let r = CompoundQueryBuilder { query_type: self.query_type, queries };
        r
    }

    pub fn build(self) -> (r: CompoundQuery)
        ensures
            r@ == self@,
    {
        CompoundQuery { query_type: self.query_type, queries: self.queries }
    }
}

} // verus!
