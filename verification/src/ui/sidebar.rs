//! Collapsible and resizable sidebar containing Inspector, Results, History,
//! and Outline panels.
//!
//! Heuristic facts have explicit certainty badges and explanations. Unknown
//! facts are unknown, not zero. Search results retain their query generation
//! so stale batches never overwrite current results.
pub mod moves;

use vstd::prelude::*;

use crate::identity::{FileId, QueryGeneration, SourceRevision};
use crate::model::{group_views, maybe, views};
use crate::scalar::Scalar;

verus! {

broadcast use group_views;

/// Available panels in the collapsible sidebar.
#[derive(Clone, Copy, Debug, PartialEq, Eq, Hash, Structural)]
pub enum SidebarPanel {
    /// File metadata, indexing status, relationships, and source facts.
    Inspector,
    /// Search query results and match navigation.
    Results,
    /// Visited location stack with back/forward navigation.
    History,
    /// Structural symbols, functions, types, and document headings.
    Outline,
}

impl SidebarPanel {
    /// The panel's title.
    pub open spec fn name(self) -> Seq<char> {
        match self {
            SidebarPanel::Inspector => "Inspector"@,
            SidebarPanel::Results => "Search Results"@,
            SidebarPanel::History => "History"@,
            SidebarPanel::Outline => "Outline"@,
        }
    }

    pub fn label(self) -> (r: &'static str)
        ensures
            r@ == self.name(),
    {
        match self {
            SidebarPanel::Inspector => "Inspector",
            SidebarPanel::Results => "Search Results",
            SidebarPanel::History => "History",
            SidebarPanel::Outline => "Outline",
        }
    }

    /// Every panel, in display order.
    pub fn all() -> (r: Vec<SidebarPanel>)
        ensures
            r@ == seq![
                SidebarPanel::Inspector,
                SidebarPanel::Results,
                SidebarPanel::History,
                SidebarPanel::Outline,
            ],
    {
        vec![
            SidebarPanel::Inspector,
            SidebarPanel::Results,
            SidebarPanel::History,
            SidebarPanel::Outline,
        ]
    }
}

/// Certainty of a source fact presented in the Inspector.
#[derive(Debug, PartialEq, Eq)]
pub enum FactCertainty<T = String> {
    /// Fact is compiler- or source-verified (exact).
    Authoritative,
    /// Fact is inferred from heuristic or partial lexical analysis.
    Heuristic { reason: T },
    /// Fact is not known (distinguished from zero or empty).
    Unknown,
}

impl View for FactCertainty {
    type V = FactCertainty<Seq<char>>;

    open spec fn view(&self) -> FactCertainty<Seq<char>> {
        match *self {
            FactCertainty::Authoritative => FactCertainty::Authoritative,
            FactCertainty::Heuristic { reason } => FactCertainty::Heuristic { reason: reason@ },
            FactCertainty::Unknown => FactCertainty::Unknown,
        }
    }
}

/// A structured property row in the Inspector panel.
#[derive(Debug, PartialEq, Eq)]
pub struct InspectorFact<T = String> {
    pub key: T,
    pub label: T,
    pub value: Option<T>,
    pub certainty: FactCertainty<T>,
}

impl View for InspectorFact {
    type V = InspectorFact<Seq<char>>;

    open spec fn view(&self) -> InspectorFact<Seq<char>> {
        InspectorFact {
            key: self.key@,
            label: self.label@,
            value: maybe(self.value),
            certainty: self.certainty@,
        }
    }
}

/// What the Inspector shows.
#[verifier::ext_equal]
pub ghost struct InspectorModel {
    pub file_path: Option<Seq<char>>,
    pub file_id: Option<FileId>,
    pub language: Option<Seq<char>>,
    pub byte_count: Option<u64>,
    pub line_count: Option<usize>,
    pub revision: Option<SourceRevision>,
    pub indexing_status: Seq<char>,
    pub facts: Seq<InspectorFact<Seq<char>>>,
    pub inbound_relations: Seq<Seq<char>>,
    pub outbound_relations: Seq<Seq<char>>,
}

impl InspectorModel {
    /// Nothing is shown.
    pub open spec fn blank() -> InspectorModel {
        InspectorModel {
            file_path: None,
            file_id: None,
            language: None,
            byte_count: None,
            line_count: None,
            revision: None,
            indexing_status: Seq::empty(),
            facts: Seq::empty(),
            inbound_relations: Seq::empty(),
            outbound_relations: Seq::empty(),
        }
    }
}

/// State for the Inspector panel.
#[derive(Debug, PartialEq, Eq)]
pub struct InspectorState {
    pub file_path: Option<String>,
    pub file_id: Option<FileId>,
    pub language: Option<String>,
    pub byte_count: Option<u64>,
    pub line_count: Option<usize>,
    pub revision: Option<SourceRevision>,
    pub indexing_status: String,
    pub facts: Vec<InspectorFact>,
    pub inbound_relations: Vec<String>,
    pub outbound_relations: Vec<String>,
}

impl View for InspectorState {
    type V = InspectorModel;

    open spec fn view(&self) -> InspectorModel {
        InspectorModel {
            file_path: maybe(self.file_path),
            file_id: self.file_id,
            language: maybe(self.language),
            byte_count: self.byte_count,
            line_count: self.line_count,
            revision: self.revision,
            indexing_status: self.indexing_status@,
            facts: views(self.facts@),
            inbound_relations: views(self.inbound_relations@),
            outbound_relations: views(self.outbound_relations@),
        }
    }
}

impl Default for InspectorState {
    fn default() -> (r: Self)
        ensures
            r@ == InspectorModel::blank(),
    {
        let r = InspectorState {
            file_path: None,
            file_id: None,
            language: None,
            byte_count: None,
            line_count: None,
            revision: None,
            indexing_status: String::new(),
            facts: Vec::new(),
            inbound_relations: Vec::new(),
            outbound_relations: Vec::new(),
        };
        assert(r@ =~= InspectorModel::blank());
        r
    }
}

impl InspectorState {
    pub fn clear(&mut self)
        ensures
            final(self)@ == InspectorModel::blank(),
    {
        *self = InspectorState::default();
    }
}

/// A single search result entry displayed in the Results panel.
#[derive(Debug, PartialEq, Eq)]
pub struct SearchResultEntry<T = String> {
    pub id: u64,
    pub file_id: FileId,
    pub path: T,
    pub line_number: usize,
    pub byte_range: (u64, u64),
    pub excerpt: T,
}

impl View for SearchResultEntry {
    type V = SearchResultEntry<Seq<char>>;

    open spec fn view(&self) -> SearchResultEntry<Seq<char>> {
        SearchResultEntry {
            id: self.id,
            file_id: self.file_id,
            path: self.path@,
            line_number: self.line_number,
            byte_range: self.byte_range,
            excerpt: self.excerpt@,
        }
    }
}

impl Clone for SearchResultEntry {
    fn clone(&self) -> (r: Self)
        ensures
            r == *self,
    {
        SearchResultEntry {
            id: self.id,
            file_id: self.file_id,
            path: self.path.clone(),
            line_number: self.line_number,
            byte_range: self.byte_range,
            excerpt: self.excerpt.clone(),
        }
    }
}

/// The row after `index` in a list of `count` rows, staying on the last one.
pub open spec fn row_after(index: Option<usize>, count: nat) -> Option<usize> {
    if count == 0 {
        index
    } else {
        match index {
            Some(at) => Some(
                if at + 1 < count {
                    (at + 1) as usize
                } else {
                    (count - 1) as usize
                },
            ),
            None => Some(0),
        }
    }
}

/// The row before `index` in a list of `count` rows, staying on the first one.
pub open spec fn row_before(index: Option<usize>, count: nat) -> Option<usize> {
    if count == 0 {
        index
    } else {
        match index {
            Some(at) => Some(
                if at > 0 {
                    (at - 1) as usize
                } else {
                    0
                },
            ),
            None => Some(0),
        }
    }
}

/// The item an optional row number points at.
pub open spec fn row_item<A>(items: Seq<A>, index: Option<usize>) -> Option<A> {
    match index {
        Some(at) => if at < items.len() {
            Some(items[at as int])
        } else {
            None
        },
        None => None,
    }
}

/// What the Results panel shows.
#[verifier::ext_equal]
pub ghost struct ResultsModel {
    pub query: Seq<char>,
    pub query_generation: Option<QueryGeneration>,
    pub results: Seq<SearchResultEntry<Seq<char>>>,
    pub selected_index: Option<usize>,
    pub is_searching: bool,
    pub has_more: bool,
}

impl ResultsModel {
    /// No query and no results.
    pub open spec fn blank() -> ResultsModel {
        ResultsModel {
            query: Seq::empty(),
            query_generation: None,
            results: Seq::empty(),
            selected_index: None,
            is_searching: false,
            has_more: false,
        }
    }

    pub open spec fn select_next(self) -> ResultsModel {
        ResultsModel {
            selected_index: row_after(self.selected_index, self.results.len()),
            ..self
        }
    }

    pub open spec fn select_prev(self) -> ResultsModel {
        ResultsModel {
            selected_index: row_before(self.selected_index, self.results.len()),
            ..self
        }
    }
}

/// State for the Results panel.
#[derive(Debug, PartialEq)]
pub struct ResultsState {
    pub query: String,
    pub query_generation: Option<QueryGeneration>,
    pub results: Vec<SearchResultEntry>,
    pub selected_index: Option<usize>,
    pub is_searching: bool,
    pub has_more: bool,
}

impl View for ResultsState {
    type V = ResultsModel;

    open spec fn view(&self) -> ResultsModel {
        ResultsModel {
            query: self.query@,
            query_generation: self.query_generation,
            results: views(self.results@),
            selected_index: self.selected_index,
            is_searching: self.is_searching,
            has_more: self.has_more,
        }
    }
}

impl ResultsState {
    /// The selected row is not the largest machine integer.
    pub open spec fn wf(self) -> bool {
        self.selected_index matches Some(at) ==> at < usize::MAX
    }

    pub fn new() -> (r: Self)
        ensures
            r@ == ResultsModel::blank(),
    {
        let r = ResultsState {
            query: String::new(),
            query_generation: None,
            results: Vec::new(),
            selected_index: None,
            is_searching: false,
            has_more: false,
        };
        assert(r@ =~= ResultsModel::blank());
        r
    }

    pub fn clear(&mut self)
        ensures
            final(self)@ == ResultsModel::blank(),
    {
        *self = ResultsState::new();
    }

    pub fn selected_result(&self) -> (r: Option<&SearchResultEntry>)
        ensures
            r is Some <==> row_item(self@.results, self.selected_index) is Some,
            r matches Some(entry) ==> Some(entry@) == row_item(self@.results, self.selected_index),
    {
        match self.selected_index {
            Some(at) => if at < self.results.len() {
                Some(&self.results[at])
            } else {
                None
            },
            None => None,
        }
    }

    pub fn select_next(&mut self) -> (r: Option<&SearchResultEntry>)
        requires
            old(self).wf(),
        ensures
            final(self).wf(),
            final(self)@ == old(self)@.select_next(),
            r is Some <==> old(self)@.results.len() > 0,
            r matches Some(entry) ==> Some(entry@) == row_item(
                final(self)@.results,
                final(self)@.selected_index,
            ),
    {
        if self.results.len() == 0 {
            return None;
        }
        let next: usize = match self.selected_index {
            Some(at) => if at + 1 < self.results.len() {
                at + 1
            } else {
                self.results.len() - 1
            },
            None => 0,
        };
        self.selected_index = Some(next);
        Some(&self.results[next])
    }

    pub fn select_prev(&mut self) -> (r: Option<&SearchResultEntry>)
        ensures
            old(self).wf() ==> final(self).wf(),
            final(self)@ == old(self)@.select_prev(),
            r is Some <==> row_item(final(self)@.results, final(self)@.selected_index) is Some
                && old(self)@.results.len() > 0,
            r matches Some(entry) ==> Some(entry@) == row_item(
                final(self)@.results,
                final(self)@.selected_index,
            ),
    {
        if self.results.len() == 0 {
            return None;
        }
        let prev: usize = match self.selected_index {
            Some(at) => if at > 0 {
                at - 1
            } else {
                0
            },
            None => 0,
        };
        self.selected_index = Some(prev);
        if prev < self.results.len() {
            Some(&self.results[prev])
        } else {
            None
        }
    }
}

impl Default for ResultsState {
    fn default() -> (r: Self)
        ensures
            r@ == ResultsModel::blank(),
    {
        ResultsState::new()
    }
}

/// A recorded navigation point in the History panel.
#[derive(Debug, PartialEq, Eq)]
pub struct HistoryItem<T = String> {
    pub id: u64,
    pub path: T,
    pub description: T,
    pub timestamp_nanos: u64,
}

impl View for HistoryItem {
    type V = HistoryItem<Seq<char>>;

    open spec fn view(&self) -> HistoryItem<Seq<char>> {
        HistoryItem {
            id: self.id,
            path: self.path@,
            description: self.description@,
            timestamp_nanos: self.timestamp_nanos,
        }
    }
}

impl Clone for HistoryItem {
    fn clone(&self) -> (r: Self)
        ensures
            r == *self,
    {
        HistoryItem {
            id: self.id,
            path: self.path.clone(),
            description: self.description.clone(),
            timestamp_nanos: self.timestamp_nanos,
        }
    }
}

/// The visited places and the one currently shown.
#[verifier::ext_equal]
pub ghost struct HistoryModel {
    pub entries: Seq<HistoryItem<Seq<char>>>,
    pub current_index: Option<usize>,
}

impl HistoryModel {
    /// The places that stay when a new one is visited: everything up to the
    /// shown place, without the oldest when there is no room left.
    pub open spec fn kept(self) -> Seq<HistoryItem<Seq<char>>> {
        let past = match self.current_index {
            Some(at) if at + 1 < self.entries.len() => self.entries.subrange(0, at + 1),
            _ => self.entries,
        };
        if past.len() >= HistoryState::MAX_ENTRIES {
            past.remove(0)
        } else {
            past
        }
    }

    pub open spec fn push(self, item: HistoryItem<Seq<char>>) -> HistoryModel {
        HistoryModel {
            entries: self.kept().push(item),
            current_index: Some(self.kept().len() as usize),
        }
    }

    pub open spec fn can_go_back(self) -> bool {
        self.current_index matches Some(at) && at > 0
    }

    pub open spec fn can_go_forward(self) -> bool {
        self.current_index matches Some(at) && at + 1 < self.entries.len()
    }

    pub open spec fn go_back(self) -> HistoryModel {
        if self.can_go_back() {
            HistoryModel { current_index: Some((self.current_index->0 - 1) as usize), ..self }
        } else {
            self
        }
    }

    pub open spec fn go_forward(self) -> HistoryModel {
        if self.can_go_forward() {
            HistoryModel { current_index: Some((self.current_index->0 + 1) as usize), ..self }
        } else {
            self
        }
    }
}

/// State for the History panel with back/forward support.
#[derive(Debug, PartialEq, Eq)]
pub struct HistoryState {
    pub entries: Vec<HistoryItem>,
    pub current_index: Option<usize>,
}

impl View for HistoryState {
    type V = HistoryModel;

    open spec fn view(&self) -> HistoryModel {
        HistoryModel { entries: views(self.entries@), current_index: self.current_index }
    }
}

impl Default for HistoryState {
    fn default() -> (r: Self)
        ensures
            r@.entries.len() == 0,
            r@.current_index is None,
    {
        HistoryState { entries: Vec::new(), current_index: None }
    }
}

impl HistoryState {
    pub const MAX_ENTRIES: usize = 128;

    /// The shown place is not the largest machine integer.
    pub open spec fn wf(self) -> bool {
        self.current_index matches Some(at) ==> at < usize::MAX
    }

    pub fn can_go_back(&self) -> (r: bool)
        ensures
            r == self@.can_go_back(),
    {
        match self.current_index {
            Some(at) => at > 0,
            None => false,
        }
    }

    pub fn can_go_forward(&self) -> (r: bool)
        requires
            self.wf(),
        ensures
            r == self@.can_go_forward(),
    {
        match self.current_index {
            Some(at) => at + 1 < self.entries.len(),
            None => false,
        }
    }

    /// Visits a new place. Forward history is dropped, and the oldest place
    /// leaves when the list is full.
    pub fn push(&mut self, item: HistoryItem)
        requires
            old(self).wf(),
        ensures
            final(self).wf(),
            final(self)@ == old(self)@.push(item@),
    {
        let ghost before = self.entries@;
        if let Some(at) = self.current_index {
            // Truncate any forward history when branching
            if at + 1 < self.entries.len() {
                self.entries.truncate(at + 1);
                assert(self.entries@ =~= before.subrange(0, at + 1));
            }
        }
        if self.entries.len() >= Self::MAX_ENTRIES {
            self.entries.remove(0);
        }
        self.entries.push(item);
        self.current_index = Some(self.entries.len() - 1);
    }

    pub fn go_back(&mut self) -> (r: Option<&HistoryItem>)
        ensures
            old(self).wf() ==> final(self).wf(),
            final(self)@ == old(self)@.go_back(),
            r is Some <==> old(self)@.can_go_back() && row_item(
                final(self)@.entries,
                final(self)@.current_index,
            ) is Some,
            r matches Some(item) ==> Some(item@) == row_item(
                final(self)@.entries,
                final(self)@.current_index,
            ),
    {
        match self.current_index {
            Some(at) => if at > 0 {
                self.current_index = Some(at - 1);
                if at - 1 < self.entries.len() {
                    Some(&self.entries[at - 1])
                } else {
                    None
                }
            } else {
                None
            },
            None => None,
        }
    }

    pub fn go_forward(&mut self) -> (r: Option<&HistoryItem>)
        requires
            old(self).wf(),
        ensures
            final(self).wf(),
            final(self)@ == old(self)@.go_forward(),
            r is Some <==> old(self)@.can_go_forward(),
            r matches Some(item) ==> Some(item@) == row_item(
                final(self)@.entries,
                final(self)@.current_index,
            ),
    {
        match self.current_index {
            Some(at) => if at + 1 < self.entries.len() {
                self.current_index = Some(at + 1);
                Some(&self.entries[at + 1])
            } else {
                None
            },
            None => None,
        }
    }
}

/// The list of visited places never outgrows its bound, and the newest place
/// is the one shown.
pub proof fn history_push_is_bounded(history: HistoryModel, item: HistoryItem<Seq<char>>)
    requires
        history.entries.len() <= HistoryState::MAX_ENTRIES,
    ensures
        history.push(item).entries.len() <= HistoryState::MAX_ENTRIES,
        history.push(item).entries.last() == item,
        row_item(history.push(item).entries, history.push(item).current_index) == Some(item),
        !history.push(item).can_go_forward(),
{
}

/// Going back and then forward shows the same place again.
pub proof fn forward_undoes_back(history: HistoryModel)
    requires
        history.current_index matches Some(at) && 0 < at < history.entries.len(),
    ensures
        history.go_back().go_forward() == history,
{
}

/// A structural element in the Outline panel.
#[derive(Debug, PartialEq, Eq)]
pub struct OutlineSymbol<T = String> {
    pub id: u64,
    pub name: T,
    pub kind: T,
    pub line_number: usize,
    pub depth: usize,
}

impl View for OutlineSymbol {
    type V = OutlineSymbol<Seq<char>>;

    open spec fn view(&self) -> OutlineSymbol<Seq<char>> {
        OutlineSymbol {
            id: self.id,
            name: self.name@,
            kind: self.kind@,
            line_number: self.line_number,
            depth: self.depth,
        }
    }
}

/// What the Outline panel shows.
#[verifier::ext_equal]
pub ghost struct OutlineModel {
    pub file_path: Option<Seq<char>>,
    pub symbols: Seq<OutlineSymbol<Seq<char>>>,
    pub selected_symbol_index: Option<usize>,
}

/// State for the Outline panel.
#[derive(Debug, PartialEq, Eq)]
pub struct OutlineState {
    pub file_path: Option<String>,
    pub symbols: Vec<OutlineSymbol>,
    pub selected_symbol_index: Option<usize>,
}

impl View for OutlineState {
    type V = OutlineModel;

    open spec fn view(&self) -> OutlineModel {
        OutlineModel {
            file_path: maybe(self.file_path),
            symbols: views(self.symbols@),
            selected_symbol_index: self.selected_symbol_index,
        }
    }
}

impl Default for OutlineState {
    fn default() -> (r: Self)
        ensures
            r@ == (OutlineModel {
                file_path: None,
                symbols: Seq::empty(),
                selected_symbol_index: None,
            }),
    {
        let r = OutlineState {
            file_path: None,
            symbols: Vec::new(),
            selected_symbol_index: None,
        };
        assert(r@.symbols =~= Seq::empty());
        r
    }
}

impl OutlineState {
    pub fn clear(&mut self)
        ensures
            final(self)@ == (OutlineModel {
                file_path: None,
                symbols: Seq::empty(),
                selected_symbol_index: None,
            }),
    {
        self.file_path = None;
        self.symbols.clear();
        self.selected_symbol_index = None;
        assert(self@.symbols =~= Seq::empty());
    }

    pub fn selected_symbol(&self) -> (r: Option<&OutlineSymbol>)
        ensures
            r is Some <==> row_item(self@.symbols, self.selected_symbol_index) is Some,
            r matches Some(symbol) ==> Some(symbol@) == row_item(
                self@.symbols,
                self.selected_symbol_index,
            ),
    {
        match self.selected_symbol_index {
            Some(at) => if at < self.symbols.len() {
                Some(&self.symbols[at])
            } else {
                None
            },
            None => None,
        }
    }
}

/// What the sidebar shows and how wide it is.
pub ghost struct SidebarModel {
    pub active_panel: SidebarPanel,
    pub is_collapsed: bool,
    pub width: Scalar,
    pub min_width: Scalar,
    pub max_width: Scalar,
    pub inspector: InspectorModel,
    pub results: ResultsModel,
    pub history: HistoryModel,
    pub outline: OutlineModel,
}

impl SidebarModel {
    /// An open sidebar of the usual width, with blank panels.
    pub open spec fn fresh() -> SidebarModel {
        SidebarModel {
            active_panel: SidebarPanel::Inspector,
            is_collapsed: false,
            width: Scalar { bits: SidebarState::DEFAULT_WIDTH },
            min_width: Scalar { bits: SidebarState::MIN_WIDTH },
            max_width: Scalar { bits: SidebarState::MAX_WIDTH },
            inspector: InspectorModel::blank(),
            results: ResultsModel::blank(),
            history: HistoryModel { entries: Seq::empty(), current_index: None },
            outline: OutlineModel {
                file_path: None,
                symbols: Seq::empty(),
                selected_symbol_index: None,
            },
        }
    }
}

/// Complete sidebar state.
#[derive(Debug, PartialEq)]
pub struct SidebarState {
    pub active_panel: SidebarPanel,
    pub is_collapsed: bool,
    pub width: Scalar,
    pub min_width: Scalar,
    pub max_width: Scalar,
    pub inspector: InspectorState,
    pub results: ResultsState,
    pub history: HistoryState,
    pub outline: OutlineState,
}

impl View for SidebarState {
    type V = SidebarModel;

    open spec fn view(&self) -> SidebarModel {
        SidebarModel {
            active_panel: self.active_panel,
            is_collapsed: self.is_collapsed,
            width: self.width,
            min_width: self.min_width,
            max_width: self.max_width,
            inspector: self.inspector@,
            results: self.results@,
            history: self.history@,
            outline: self.outline@,
        }
    }
}

impl SidebarState {
    /// Bit pattern of three hundred units.
    pub const DEFAULT_WIDTH: u32 = 0x4396_0000;

    /// Bit pattern of two hundred units.
    pub const MIN_WIDTH: u32 = 0x4348_0000;

    /// Bit pattern of eight hundred units.
    pub const MAX_WIDTH: u32 = 0x4448_0000;

    /// The width bounds are numbers in order, and no row number is the largest
    /// machine integer.
    pub open spec fn wf(self) -> bool {
        &&& self.min_width.at_most(self.max_width)
        &&& self.results.wf()
        &&& self.history.wf()
    }

    pub fn new() -> (r: Self)
        ensures
            r.wf(),
            r@ == SidebarModel::fresh(),
    {
        let r = SidebarState {
            active_panel: SidebarPanel::Inspector,
            is_collapsed: false,
            width: Scalar { bits: Self::DEFAULT_WIDTH },
            min_width: Scalar { bits: Self::MIN_WIDTH },
            max_width: Scalar { bits: Self::MAX_WIDTH },
            inspector: InspectorState::default(),
            results: ResultsState::new(),
            history: HistoryState::default(),
            outline: OutlineState::default(),
        };
        assert(r@.history.entries =~= Seq::empty());
        r
    }

    pub fn toggle_collapsed(&mut self)
        requires
            old(self).wf(),
        ensures
            final(self).wf(),
            final(self)@ == (SidebarModel { is_collapsed: !old(self).is_collapsed, ..old(self)@ }),
    {
        self.is_collapsed = !self.is_collapsed;
    }

    pub fn set_width(&mut self, width: Scalar)
        requires
            old(self).wf(),
        ensures
            final(self).wf(),
            final(self)@ == (SidebarModel {
                width: width.clamped(old(self).min_width, old(self).max_width),
                ..old(self)@
            }),
    {
        self.width = width.clamp(self.min_width, self.max_width);
    }
}

impl Default for SidebarState {
    fn default() -> (r: Self)
        ensures
            r.wf(),
            r@ == SidebarModel::fresh(),
    {
        SidebarState::new()
    }
}

} // verus!
