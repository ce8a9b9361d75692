//! What a count does when the device behind it holds a given tree.

use crate::count::{children, CountModel, CountWaitingView, FileCount};
use crate::path::join;
use crate::protocol::{ActionView, EventView};
use crate::stack::stacked;
use crate::tree::{branch_names, forest_files, Branch, Tree};
use vstd::prelude::*;

verus! {

/// The answers of a device while the folder that holds `tree` and the
/// folders below it are counted.
pub open spec fn folder_events(tree: Tree) -> Seq<EventView>
    decreases tree,
{
    seq![
        EventView::Files { names: tree.files },
        EventView::Folders { names: tree.folder_names() },
    ] + forest_events(tree.folders)
}

/// The answers of a device while the folders `branches` are counted in
/// turn.
pub open spec fn forest_events(branches: Seq<Branch>) -> Seq<EventView>
    decreases branches,
{
    if branches.len() == 0 {
        Seq::empty()
    } else {
        folder_events(branches[0].content) + forest_events(branches.drop_first())
    }
}

/// What is asked while the folder `path`, which holds `tree`, is counted:
/// its files, its folders, and then the same for each folder below it.
pub open spec fn folder_actions(path: Seq<char>, tree: Tree) -> Seq<ActionView>
    decreases tree,
{
    seq![ActionView::ListFiles { path }, ActionView::ListFolders { path }] + forest_actions(
        path,
        tree.folders,
    )
}

/// What is asked while the folders `branches` of `path` are counted in turn.
pub open spec fn forest_actions(path: Seq<char>, branches: Seq<Branch>) -> Seq<ActionView>
    decreases branches,
{
    if branches.len() == 0 {
        Seq::empty()
    } else {
        folder_actions(join(path, branches[0].name), branches[0].content) + forest_actions(
            path,
            branches.drop_first(),
        )
    }
}

/// The run that takes up the next folder of `state` and then goes through
/// `events`.
pub open spec fn play(state: CountModel, events: Seq<EventView>) -> (CountModel, Seq<ActionView>) {
    let (next, action) = state.advance();
    let (end, actions) = next.run(events);
    (end, seq![action] + actions)
}

/// The run that hands out `actions` and then takes up the next folder of
/// `state`.
pub open spec fn then(actions: Seq<ActionView>, state: CountModel) -> (
    CountModel,
    Seq<ActionView>,
) {
    let (next, action) = state.advance();
    (next, actions + seq![action])
}

/// `state` between two folders, with `pending` left and `total` files
/// counted.
pub open spec fn resting(state: CountModel, pending: Seq<Seq<char>>, total: int) -> CountModel {
    CountModel { pending, total: total as u64, waiting: CountWaitingView::Start, ..state }
}

/// A run over two stretches of events is the run over the first, continued
/// over the second.
pub proof fn lemma_run_concat(state: CountModel, first: Seq<EventView>, second: Seq<EventView>)
    ensures
        state.run(first + second) == ({
            let (middle, actions) = state.run(first);
            let (end, more) = middle.run(second);
            (end, actions + more)
        }),
    decreases first.len(),
{
    if first.len() == 0 {
        assert(first + second =~= second);
        assert(Seq::<ActionView>::empty() + state.run(second).1 =~= state.run(second).1);
    } else {
        let (next, action) = state.step(first[0]);
        assert((first + second).drop_first() =~= first.drop_first() + second);
        lemma_run_concat(next, first.drop_first(), second);
        let (middle, actions) = next.run(first.drop_first());
        let (end, more) = middle.run(second);
        assert(seq![action] + (actions + more) =~= (seq![action] + actions) + more);
    }
}

/// A stretch of work that ends between two folders is continued by
/// whatever follows.
proof fn lemma_play_then(
    state: CountModel,
    first: Seq<EventView>,
    actions: Seq<ActionView>,
    middle: CountModel,
    second: Seq<EventView>,
)
    requires
        play(state, first) == then(actions, middle),
    ensures
        play(state, first + second) == ({
            let (end, more) = play(middle, second);
            (end, actions + more)
        }),
{
    let (next, action) = state.advance();
    lemma_run_concat(next, first, second);
    let (resumed, last) = middle.advance();
    let (end, more) = resumed.run(second);
    assert(seq![action] + (next.run(first).1 + more) =~= actions + (seq![last] + more)) by {
        assert(seq![action] + next.run(first).1 == actions + seq![last]);
        assert(seq![action] + (next.run(first).1 + more) =~= (seq![action] + next.run(
            first,
        ).1) + more);
    }
}

/// A run over an event and more events is the step for the event, continued
/// over the rest.
proof fn lemma_run_cons(state: CountModel, event: EventView, rest: Seq<EventView>)
    ensures
        state.run(seq![event] + rest) == ({
            let (next, action) = state.step(event);
            let (end, actions) = next.run(rest);
            (end, seq![action] + actions)
        }),
{
    assert((seq![event] + rest).drop_first() =~= rest);
}

/// A run over one event is the step for it.
pub proof fn lemma_run_one(state: CountModel, event: EventView)
    ensures
        state.run(seq![event]) == (state.step(event).0, seq![state.step(event).1]),
{
    let one = seq![event];
    assert(one.drop_first() =~= Seq::<EventView>::empty());
    let next = state.step(event).0;
    assert(next.run(one.drop_first()) == (next, Seq::<ActionView>::empty()));
    assert(seq![state.step(event).1] + Seq::<ActionView>::empty() =~= seq![state.step(event).1]);
}

/// The work for one folder that holds `tree`: its own files are counted,
/// then the folders below it.
proof fn lemma_folder(state: CountModel, path: Seq<char>, tree: Tree)
    requires
        state.pending.len() > 0,
        state.pending.last() == path,
        !state.cancel_requested,
        state.total + tree.total_files() <= u64::MAX,
    ensures
        play(state, folder_events(tree)) == then(
            folder_actions(path, tree),
            resting(state, state.pending.drop_last(), state.total + tree.total_files()),
        ),
    decreases tree, 0nat,
{
    let base = state.pending.drop_last();
    let files = EventView::Files { names: tree.files };
    let folders = EventView::Folders { names: tree.folder_names() };
    let inner = forest_events(tree.folders);
    assert(folder_events(tree) =~= seq![files] + (seq![folders] + inner));
    let (asked_files, list_files) = state.advance();
    lemma_run_cons(asked_files, files, seq![folders] + inner);
    let (asked_folders, list_folders) = asked_files.step(files);
    lemma_run_cons(asked_folders, folders, inner);
    let below = CountModel {
        pending: stacked(base, children(path, tree.folder_names())),
        ..asked_folders
    };
    assert(asked_folders.step(folders) == below.advance());
    lemma_forest(below, base, path, tree.folders);
    let end = resting(state, base, state.total + tree.total_files());
    assert(resting(below, base, below.total + forest_files(tree.folders)) == end);
    let inner_actions = forest_actions(path, tree.folders);
    assert(play(state, folder_events(tree)).1 =~= seq![list_files] + (seq![list_folders] + (
        inner_actions + seq![end.advance().1])));
    assert(seq![list_files] + (seq![list_folders] + (inner_actions + seq![end.advance().1]))
        =~= folder_actions(path, tree) + seq![end.advance().1]);
}

/// The work for the folders `branches` of the folder `path`, in their
/// order.
proof fn lemma_forest(
    state: CountModel,
    base: Seq<Seq<char>>,
    path: Seq<char>,
    branches: Seq<Branch>,
)
    requires
        state.pending == stacked(base, children(path, branch_names(branches))),
        !state.cancel_requested,
        state.total + forest_files(branches) <= u64::MAX,
    ensures
        play(state, forest_events(branches)) == then(
            forest_actions(path, branches),
            resting(state, base, state.total + forest_files(branches)),
        ),
    decreases branches, 1nat,
{
    if branches.len() == 0 {
        assert(play(state, forest_events(branches)).1 =~= then(
            forest_actions(path, branches),
            resting(state, base, state.total as int),
        ).1);
    } else {
        let first = branches[0];
        let rest = branches.drop_first();
        let child = join(path, first.name);
        assert(children(path, branch_names(branches)).drop_first() =~= children(
            path,
            branch_names(rest),
        ));
        assert(children(path, branch_names(branches))[0] == child);
        lemma_folder(state, child, first.content);
        let middle = resting(
            state,
            state.pending.drop_last(),
            state.total + first.content.total_files(),
        );
        assert(middle.pending =~= stacked(base, children(path, branch_names(rest))));
        let first_actions = folder_actions(child, first.content);
        lemma_play_then(
            state,
            folder_events(first.content),
            first_actions,
            middle,
            forest_events(rest),
        );
        lemma_forest(middle, base, path, rest);
        let end = resting(state, base, state.total + forest_files(branches));
        assert(resting(middle, base, middle.total + forest_files(rest)) == end);
        assert(first_actions + (forest_actions(path, rest) + seq![end.advance().1])
            =~= forest_actions(path, branches) + seq![end.advance().1]);
    }
}

/// The answers of a device that holds `tree` to a whole count.
pub open spec fn answers(tree: Tree) -> Seq<EventView> {
    seq![EventView::Started] + folder_events(tree)
}

/// The state of a count that has succeeded with `total` files counted.
pub open spec fn succeeded(total: nat) -> CountModel {
    CountModel {
        total: total as u64,
        cancel_requested: false,
        pending: Seq::empty(),
        waiting: CountWaitingView::Closed { result: Ok(()) },
    }
}

/// Against a device that holds `tree` in its folder `root`, a count lists
/// the files and the folders of every folder of the tree once, and ends in
/// success with the number of files of the whole tree, however they are
/// spread over its folders: each file is counted in its own folder, and
/// nowhere else.
pub proof fn lemma_count_of_tree(root: Seq<char>, tree: Tree)
    requires
        tree.total_files() <= u64::MAX,
    ensures
        CountModel::start(root).run(answers(tree)) == (
            succeeded(tree.total_files()),
            folder_actions(root, tree) + seq![ActionView::Finish { result: Ok(()) }],
        ),
        succeeded(tree.total_files()).outcome() == Some(
            FileCount { total_files: tree.total_files() as u64 },
        ),
{
    let start = CountModel::start(root);
    lemma_run_cons(start, EventView::Started, folder_events(tree));
    assert(start.pending.drop_last() =~= Seq::<Seq<char>>::empty());
    lemma_folder(start, root, tree);
    let end = resting(start, Seq::empty(), tree.total_files() as int);
    assert(end.advance().0 == succeeded(tree.total_files()));
}

/// A count that is over stays over: whatever it is told, it keeps its state
/// and hands out its result again.
pub proof fn lemma_closed_stays(state: CountModel, events: Seq<EventView>)
    requires
        state.waiting is Closed,
    ensures
        state.run(events).0 == state,
        state.run(events).1.len() == events.len(),
        forall|i: int|
            0 <= i < events.len() ==> #[trigger] state.run(events).1[i] == (ActionView::Finish {
                result: state.waiting->Closed_result,
            }),
    decreases events.len(),
{
    if events.len() > 0 {
        lemma_closed_stays(state, events.drop_first());
    }
}

/// Once a stop is requested no further folder is begun, whatever the
/// device answers: at most the folders of the folder in hand are asked
/// for, and then the count is over.
pub proof fn lemma_stop_begins_nothing(state: CountModel, events: Seq<EventView>)
    requires
        state.cancel_requested,
    ensures
        state.run(events).0.cancel_requested,
        forall|i: int|
            0 <= i < state.run(events).1.len() ==> {
                let action = #[trigger] state.run(events).1[i];
                action is Finish || (action is ListFolders && state.waiting
                    == CountWaitingView::Files { path: action->ListFolders_path })
            },
    decreases events.len(),
{
    if events.len() > 0 {
        let (next, action) = state.step(events[0]);
        lemma_stop_begins_nothing(next, events.drop_first());
        assert forall|i: int| 0 <= i < state.run(events).1.len() implies {
            let later = #[trigger] state.run(events).1[i];
            later is Finish || (later is ListFolders && state.waiting
                == CountWaitingView::Files { path: later->ListFolders_path })
        } by {
            if i > 0 {
                assert(state.run(events).1[i] == next.run(events.drop_first()).1[i - 1]);
            }
        }
    }
}

} // verus!
