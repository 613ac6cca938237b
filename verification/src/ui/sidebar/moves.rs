//! How lists are walked and places visited.
use vstd::prelude::*;

use super::{row_after, row_before, row_item, HistoryItem, HistoryModel, ResultsModel};

verus! {

/// Walking a list goes one row on or back, and stays on the last and on the first. From
/// nowhere it goes to the first row, and in an empty list nowhere.
pub proof fn rows_are_walked_one_by_one(index: Option<usize>, count: nat)
    requires
        count <= usize::MAX,
        index matches Some(at) ==> at < count,
    ensures
        count == 0 ==> row_after(index, count) == index && row_before(index, count) == index,
        count > 0 ==> {
            &&& row_after(index, count) matches Some(to) && to < count && (match index {
                Some(at) => to == if at == count - 1 {
                    at as int
                } else {
                    at + 1
                },
                None => to == 0,
            })
            &&& row_before(index, count) matches Some(to) && to < count && (match index {
                Some(at) => to == if at == 0 {
                    0int
                } else {
                    at - 1
                },
                None => to == 0,
            })
        },
{
}

/// Walking the results selects the neighbour of the selected one and changes nothing else.
pub proof fn results_are_walked_one_by_one(results: ResultsModel, at: usize)
    requires
        results.results.len() <= usize::MAX,
        results.selected_index == Some(at),
        at < results.results.len(),
    ensures
        results.select_next().results == results.results,
        results.select_prev().results == results.results,
        results.select_next().query == results.query,
        results.select_prev().query == results.query,
        at + 1 < results.results.len() ==> row_item(
            results.results,
            results.select_next().selected_index,
        ) == Some(results.results[at + 1]),
        at > 0 ==> row_item(results.results, results.select_prev().selected_index) == Some(
            results.results[at - 1],
        ),
        results.select_next().select_prev().selected_index == Some(at) || at + 1
            == results.results.len(),
{
}

/// Visiting a place shows it, keeps the way back to the one shown before, and leaves no
/// way forward.
pub proof fn visits_keep_the_way_back(
    history: HistoryModel,
    item: HistoryItem<Seq<char>>,
    at: usize,
)
    requires
        history.current_index == Some(at),
        at < history.entries.len() <= 128,
    ensures
        ({
            let after = history.push(item);
            &&& row_item(after.entries, after.current_index) == Some(item)
            &&& !after.can_go_forward()
            &&& row_item(after.go_back().entries, after.go_back().current_index) == Some(
                history.entries[at as int],
            )
            &&& after.entries.len() == if at + 1 == 128 {
                128int
            } else {
                at + 2
            }
            &&& forall|i: int|
                0 <= i <= at ==> #[trigger] history.entries[i] == after.entries[i
                    + after.entries.len() - at - 2] || i == 0 && at + 1 == 128
        }),
{
}

} // verus!
