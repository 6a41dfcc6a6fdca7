//! A read query: the filter tree, free-text search, projection, order and page.

use vstd::prelude::*;

use crate::mason::value::{MasonDirection, MasonSort, MasonValue, ValueView};

verus! {

/// A parsed filter. Leaves compare one column; `And` and `Or` join children.
#[derive(Debug)]
pub enum MasonFilter {
    Eq(String, MasonValue),
    NotEq(String, MasonValue),
    Gt(String, MasonValue),
    Gte(String, MasonValue),
    Lt(String, MasonValue),
    Lte(String, MasonValue),
    Like(String, String),
    StartsWith(String, String),
    EndsWith(String, String),
    In(String, Vec<MasonValue>),
    NotIn(String, Vec<MasonValue>),
    IsNull(String, bool),
    And(Vec<MasonFilter>),
    Or(Vec<MasonFilter>),
}

/// `MasonFilter` with its strings read as characters and its lists as sequences.
pub enum FilterView {
    Eq(Seq<char>, ValueView),
    NotEq(Seq<char>, ValueView),
    Gt(Seq<char>, ValueView),
    Gte(Seq<char>, ValueView),
    Lt(Seq<char>, ValueView),
    Lte(Seq<char>, ValueView),
    Like(Seq<char>, Seq<char>),
    StartsWith(Seq<char>, Seq<char>),
    EndsWith(Seq<char>, Seq<char>),
    In(Seq<char>, Seq<ValueView>),
    NotIn(Seq<char>, Seq<ValueView>),
    IsNull(Seq<char>, bool),
    And(Seq<FilterView>),
    Or(Seq<FilterView>),
}

/// The views of a list of values.
pub open spec fn values_view(values: Seq<MasonValue>) -> Seq<ValueView> {
    values.map_values(|value: MasonValue| value@)
}

/// The view of one filter.
pub open spec fn filter_view(filter: MasonFilter) -> FilterView
    decreases filter,
{
    match filter {
        MasonFilter::Eq(column, value) => FilterView::Eq(column@, value@),
        MasonFilter::NotEq(column, value) => FilterView::NotEq(column@, value@),
        MasonFilter::Gt(column, value) => FilterView::Gt(column@, value@),
        MasonFilter::Gte(column, value) => FilterView::Gte(column@, value@),
        MasonFilter::Lt(column, value) => FilterView::Lt(column@, value@),
        MasonFilter::Lte(column, value) => FilterView::Lte(column@, value@),
        MasonFilter::Like(column, pattern) => FilterView::Like(column@, pattern@),
        MasonFilter::StartsWith(column, prefix) => FilterView::StartsWith(column@, prefix@),
        MasonFilter::EndsWith(column, suffix) => FilterView::EndsWith(column@, suffix@),
        MasonFilter::In(column, values) => FilterView::In(column@, values_view(values@)),
        MasonFilter::NotIn(column, values) => FilterView::NotIn(column@, values_view(values@)),
        MasonFilter::IsNull(column, flag) => FilterView::IsNull(column@, flag),
        MasonFilter::And(children) => FilterView::And(filters_view(children@)),
        MasonFilter::Or(children) => FilterView::Or(filters_view(children@)),
    }
}

/// The views of a list of filters, in order.
pub open spec fn filters_view(filters: Seq<MasonFilter>) -> Seq<FilterView>
    decreases filters,
{
    if filters.len() == 0 {
        Seq::empty()
    } else {
        filters_view(filters.drop_last()).push(filter_view(filters.last()))
    }
}

impl View for MasonFilter {
    type V = FilterView;

    open spec fn view(&self) -> FilterView {
        filter_view(*self)
    }
}

/// A read request against one relation.
#[derive(Debug)]
pub struct MasonQuery {
    /// Optional columns to return; empty means every selectable column.
    pub select: Vec<String>,
    pub filter: Option<MasonFilter>,
    pub search: Option<String>,
    pub sort: Vec<MasonSort>,
    /// One-based page number.
    pub page: u64,
    /// Rows per page; `0` means no paging.
    pub page_size: u64,
    /// Projects the caller may read; empty means no project scoping.
    pub project_ids: Vec<u128>,
}

/// Copies of a list of values.
fn clone_values(values: &Vec<MasonValue>) -> (copy: Vec<MasonValue>)
    ensures
        values_view(copy@) == values_view(values@),
{
    let mut copy: Vec<MasonValue> = Vec::new();
    let mut index: usize = 0;
    while index < values.len()
        invariant
            0 <= index <= values.len(),
            values_view(copy@) == values_view(values@.take(index as int)),
        decreases values.len() - index,
    {
        let ghost before = copy@;
        let item = values[index].clone();
        copy.push(item);
        proof {
            assert(copy@ == before.push(item));
            assert(values_view(copy@) =~= values_view(before).push(values@[index as int]@));
            assert(values@.take(index as int + 1) =~= values@.take(index as int).push(values@[index as int]));
            assert(values_view(values@.take(index as int + 1)) =~= values_view(values@.take(index as int)).push(
                values@[index as int]@,
            ));
        }
        index = index + 1;
    }
    proof {
        assert(values@.take(values.len() as int) =~= values@);
    }
    copy
}

/// Copies of a list of filters.
fn clone_filters(filters: &Vec<MasonFilter>) -> (copy: Vec<MasonFilter>)
    ensures
        filters_view(copy@) == filters_view(filters@),
    decreases filters@, 0nat,
{
    let mut copy: Vec<MasonFilter> = Vec::new();
    let mut index: usize = 0;
    while index < filters.len()
        invariant
            0 <= index <= filters.len(),
            filters_view(copy@) == filters_view(filters@.take(index as int)),
        decreases filters.len() - index,
    {
        let ghost before = copy@;
        let child = clone_filter(&filters[index]);
        copy.push(child);
        proof {
            assert(copy@.drop_last() =~= before);
            assert(filters@.take(index as int + 1).drop_last() =~= filters@.take(index as int));
        }
        index = index + 1;
    }
    proof {
        assert(filters@.take(filters.len() as int) =~= filters@);
    }
    copy
}

/// A copy of a filter tree.
fn clone_filter(filter: &MasonFilter) -> (copy: MasonFilter)
    ensures
        copy@ == filter@,
    decreases *filter, 1nat,
{
    match filter {
        MasonFilter::Eq(column, value) => MasonFilter::Eq(column.clone(), value.clone()),
        MasonFilter::NotEq(column, value) => MasonFilter::NotEq(column.clone(), value.clone()),
        MasonFilter::Gt(column, value) => MasonFilter::Gt(column.clone(), value.clone()),
        MasonFilter::Gte(column, value) => MasonFilter::Gte(column.clone(), value.clone()),
        MasonFilter::Lt(column, value) => MasonFilter::Lt(column.clone(), value.clone()),
        MasonFilter::Lte(column, value) => MasonFilter::Lte(column.clone(), value.clone()),
        MasonFilter::Like(column, pattern) => MasonFilter::Like(column.clone(), pattern.clone()),
        MasonFilter::StartsWith(column, prefix) => MasonFilter::StartsWith(column.clone(), prefix.clone()),
        MasonFilter::EndsWith(column, suffix) => MasonFilter::EndsWith(column.clone(), suffix.clone()),
        MasonFilter::In(column, values) => MasonFilter::In(column.clone(), clone_values(values)),
        MasonFilter::NotIn(column, values) => MasonFilter::NotIn(column.clone(), clone_values(values)),
        MasonFilter::IsNull(column, is_null) => MasonFilter::IsNull(column.clone(), *is_null),
        MasonFilter::And(children) => MasonFilter::And(clone_filters(children)),
        MasonFilter::Or(children) => MasonFilter::Or(clone_filters(children)),
    }
}

impl Clone for MasonFilter {
    fn clone(&self) -> (copy: Self)
        ensures
            copy@ == self@,
    {
        clone_filter(self)
    }
}

/// The columns and directions of a list of sort clauses.
pub open spec fn sorts_view(sorts: Seq<MasonSort>) -> Seq<(Seq<char>, MasonDirection)> {
    sorts.map_values(|sort: MasonSort| (sort.column@, sort.direction))
}

/// `MasonQuery` read as characters and views.
pub struct QueryView {
    pub select: Seq<Seq<char>>,
    pub filter: Option<FilterView>,
    pub search: Option<Seq<char>>,
    pub sort: Seq<(Seq<char>, MasonDirection)>,
    pub page: u64,
    pub page_size: u64,
    pub project_ids: Seq<u128>,
}

impl View for MasonQuery {
    type V = QueryView;

    open spec fn view(&self) -> QueryView {
        QueryView {
            select: crate::error::texts(self.select@),
            filter: match self.filter {
                Some(filter) => Some(filter@),
                None => None,
            },
            search: crate::seqs::text_of(self.search),
            sort: sorts_view(self.sort@),
            page: self.page,
            page_size: self.page_size,
            project_ids: self.project_ids@,
        }
    }
}

impl MasonQuery {
    /// The same query without paging: every matching row, first page.
    pub fn unpaginated(&self) -> (all: MasonQuery)
        ensures
            all@ == (QueryView { page: 1, page_size: 0, ..self@ }),
    {
        let mut sort: Vec<MasonSort> = Vec::new();
        let mut index: usize = 0;
        while index < self.sort.len()
            invariant
                0 <= index <= self.sort.len(),
                sorts_view(sort@) == sorts_view(self.sort@.take(index as int)),
            decreases self.sort.len() - index,
        {
            let ghost before = sort@;
            let clause = MasonSort { column: self.sort[index].column.clone(), direction: self.sort[index].direction };
            sort.push(clause);
            proof {
                assert(sort@ == before.push(clause));
                assert(sorts_view(sort@) =~= sorts_view(before).push(
                    (self.sort@[index as int].column@, self.sort@[index as int].direction),
                ));
                assert(self.sort@.take(index as int + 1) =~= self.sort@.take(index as int).push(
                    self.sort@[index as int],
                ));
                assert(sorts_view(self.sort@.take(index as int + 1)) =~= sorts_view(self.sort@.take(index as int)).push(
                    (self.sort@[index as int].column@, self.sort@[index as int].direction),
                ));
            }
            index = index + 1;
        }
        proof {
            assert(self.sort@.take(self.sort.len() as int) =~= self.sort@);
        }
        let filter = match &self.filter {
            Some(filter) => Some(filter.clone()),
            None => None,
        };
        let search = match &self.search {
            Some(search) => Some(search.clone()),
            None => None,
        };
        let all = MasonQuery {
            select: crate::seqs::copy_strings(&self.select),
            filter,
            search,
            sort,
            page: 1,
            page_size: 0,
            project_ids: self.project_ids.clone(),
        };
        proof {
            assert(all@ =~= (QueryView { page: 1, page_size: 0, ..self@ }));
        }
        all
    }
}

} // verus!
