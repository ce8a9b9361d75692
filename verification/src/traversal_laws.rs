//! What a traversal does when the device behind it holds a given tree.

use crate::path::join;
use crate::protocol::{ActionView, EventView};
use crate::stack::stacked;
use crate::traversal::{
    lemma_step_keeps_sound, opens, sound, PartialView, TraversalModel, TraversalWaitingView,
    FolderTaskView,
};
use crate::tree::{branch_names, distinct_names, lemma_first_named, Branch, Tree};
use vstd::prelude::*;

verus! {

/// The answers of a device while the folder that holds `tree` is read.
pub open spec fn folder_events(tree: Tree) -> Seq<EventView>
    decreases tree,
{
    seq![EventView::Folders { names: tree.folder_names() }] + forest_events(tree.folders) + seq![
        EventView::Files { names: tree.files },
    ]
}

/// The answers of a device while the folders `branches` are read in turn.
pub open spec fn forest_events(branches: Seq<Branch>) -> Seq<EventView>
    decreases branches,
{
    if branches.len() == 0 {
        Seq::empty()
    } else {
        folder_events(branches[0].content) + forest_events(branches.drop_first())
    }
}

/// What is asked while the folder `path`, which holds `tree`, is read: its
/// folders are listed and read first, then its files are listed.
pub open spec fn folder_actions(path: Seq<char>, tree: Tree) -> Seq<ActionView>
    decreases tree,
{
    seq![ActionView::ListFolders { path }] + forest_actions(path, tree.folders) + seq![
        ActionView::ListFiles { path },
    ]
}

/// What is asked while the folders `branches` of `path` are read in turn.
pub open spec fn forest_actions(path: Seq<char>, branches: Seq<Branch>) -> Seq<ActionView>
    decreases branches,
{
    if branches.len() == 0 {
        Seq::empty()
    } else {
        folder_actions(join(path, branches[0].name), branches[0].content) + forest_actions(
            path,
            branches.drop_first(),
        )
    }
}

/// The run that takes up the next task of `state` and then goes through
/// `events`.
pub open spec fn play(state: TraversalModel, events: Seq<EventView>) -> (
    TraversalModel,
    Seq<ActionView>,
) {
    let (next, action) = state.advance();
    let (end, actions) = next.run(events);
    (end, seq![action] + actions)
}

/// The run that hands out `actions` and then takes up the next task of
/// `state`.
pub open spec fn then(actions: Seq<ActionView>, state: TraversalModel) -> (
    TraversalModel,
    Seq<ActionView>,
) {
    let (next, action) = state.advance();
    (next, actions + seq![action])
}

/// `state` when the folder that its next task opens is read and closed:
/// the folder is called `name` and holds `tree`.
pub open spec fn closed(state: TraversalModel, name: Seq<char>, tree: Tree) -> TraversalModel {
    TraversalModel {
        agenda: state.agenda.drop_last(),
        open: state.open.push(
            PartialView { name, content: Tree { files: Seq::empty(), ..tree } },
        ),
        waiting: TraversalWaitingView::Start,
        ..state
    }.close(tree.files)
}

/// `state` when the innermost open folder has the sub-folders `branches`
/// and `agenda` is left.
pub open spec fn filled(
    state: TraversalModel,
    agenda: Seq<FolderTaskView>,
    branches: Seq<Branch>,
) -> TraversalModel {
    TraversalModel {
        agenda,
        open: state.open.drop_last().push(
            PartialView {
                name: state.open.last().name,
                content: Tree { folders: branches, files: Seq::empty() },
            },
        ),
        waiting: TraversalWaitingView::Start,
        ..state
    }
}

/// A run over two stretches of events is the run over the first, continued
/// over the second.
pub proof fn lemma_run_concat(state: TraversalModel, first: Seq<EventView>, second: Seq<EventView>)
    ensures
        state.run(first + second) == ({
            let (middle, actions) = state.run(first);
            let (end, more) = middle.run(second);
            (end, actions + more)
        }),
    decreases first.len(),
{
    if first.len() == 0 {
        assert(first + second =~= second);
        assert(Seq::<ActionView>::empty() + state.run(second).1 =~= state.run(second).1);
    } else {
        let (next, action) = state.step(first[0]);
        assert((first + second).drop_first() =~= first.drop_first() + second);
        lemma_run_concat(next, first.drop_first(), second);
        let (middle, actions) = next.run(first.drop_first());
        let (end, more) = middle.run(second);
        assert(seq![action] + (actions + more) =~= (seq![action] + actions) + more);
    }
}

/// A stretch of work that ends between two tasks is continued by whatever
/// follows.
proof fn lemma_play_then(
    state: TraversalModel,
    first: Seq<EventView>,
    actions: Seq<ActionView>,
    middle: TraversalModel,
    second: Seq<EventView>,
)
    requires
        play(state, first) == then(actions, middle),
    ensures
        play(state, first + second) == ({
            let (end, more) = play(middle, second);
            (end, actions + more)
        }),
{
    let (next, action) = state.advance();
    lemma_run_concat(next, first, second);
    let (resumed, last) = middle.advance();
    let (end, more) = resumed.run(second);
    assert(seq![action] + (next.run(first).1 + more) =~= actions + (seq![last] + more)) by {
        assert(seq![action] + next.run(first).1 == actions + seq![last]);
        assert(seq![action] + (next.run(first).1 + more) =~= (seq![action] + next.run(
            first,
        ).1) + more);
    }
}

/// A run over an event and more events is the step for the event, continued
/// over the rest.
proof fn lemma_run_cons(state: TraversalModel, event: EventView, rest: Seq<EventView>)
    ensures
        state.run(seq![event] + rest) == ({
            let (next, action) = state.step(event);
            let (end, actions) = next.run(rest);
            (end, seq![action] + actions)
        }),
{
    assert((seq![event] + rest).drop_first() =~= rest);
}

/// The work for one folder that holds `tree`: it is opened, the folders
/// below it are read into it, and it is closed with its files.
proof fn lemma_folder(state: TraversalModel, path: Seq<char>, name: Seq<char>, tree: Tree)
    requires
        state.agenda.len() > 0,
        state.agenda.last() == (FolderTaskView::Open { path, name }),
        !state.cancel_requested,
        tree.well_formed(),
    ensures
        play(state, folder_events(tree)) == then(
            folder_actions(path, tree),
            closed(state, name, tree),
        ),
    decreases tree, 0nat,
{
    let base = state.agenda.drop_last();
    let listed = EventView::Folders { names: tree.folder_names() };
    let filed = EventView::Files { names: tree.files };
    let inner = forest_events(tree.folders);
    assert(folder_events(tree) =~= seq![listed] + (inner + seq![filed]));
    let (asked, list_folders) = state.advance();
    lemma_run_cons(asked, listed, inner + seq![filed]);
    let below = TraversalModel {
        agenda: stacked(
            base.push(FolderTaskView::Close { path }),
            opens(path, tree.folder_names()),
        ),
        ..asked
    };
    assert(asked.step(listed) == below.advance());
    let none = Seq::<Branch>::empty();
    assert(none + tree.folders =~= tree.folders);
    assert(below.open.last().content == (Tree { folders: none, files: Seq::empty() }));
    lemma_forest(below, base.push(FolderTaskView::Close { path }), path, none, tree.folders);
    let drained = filled(below, base.push(FolderTaskView::Close { path }), tree.folders);
    let inner_actions = forest_actions(path, tree.folders);
    lemma_play_then(below, inner, inner_actions, drained, seq![filed]);
    let (asked_files, list_files) = drained.advance();
    assert(drained.agenda.drop_last() =~= base);
    lemma_run_cons(asked_files, filed, Seq::empty());
    assert(seq![filed] + Seq::<EventView>::empty() =~= seq![filed]);
    let end = closed(state, name, tree);
    assert(drained.open =~= state.open.push(
        PartialView { name, content: Tree { files: Seq::empty(), ..tree } },
    ));
    assert(asked_files.close(tree.files).advance() == end.advance());
    assert(play(state, folder_events(tree)).0 == end.advance().0);
    assert(play(state, folder_events(tree)).1 =~= seq![list_folders] + (inner_actions + (seq![
        list_files,
    ] + seq![end.advance().1])));
    assert(seq![list_folders] + (inner_actions + (seq![list_files] + seq![end.advance().1]))
        =~= folder_actions(path, tree) + seq![end.advance().1]);
}

/// The work for the folders `todo` of the folder `path`, in their order,
/// when the folders `done` of it are read already.
proof fn lemma_forest(
    state: TraversalModel,
    base: Seq<FolderTaskView>,
    path: Seq<char>,
    done: Seq<Branch>,
    todo: Seq<Branch>,
)
    requires
        state.agenda == stacked(base, opens(path, branch_names(todo))),
        !state.cancel_requested,
        state.open.len() > 0,
        state.open.last().content == (Tree { folders: done, files: Seq::empty() }),
        distinct_names(done + todo),
        forall|i: int| 0 <= i < todo.len() ==> (#[trigger] todo[i]).content.well_formed(),
    ensures
        play(state, forest_events(todo)) == then(
            forest_actions(path, todo),
            filled(state, base, done + todo),
        ),
    decreases todo, 1nat,
{
    let top = state.open.last();
    if todo.len() == 0 {
        assert(done + todo =~= done);
        assert(state.open.drop_last().push(top) =~= state.open);
        assert(play(state, forest_events(todo)).1 =~= then(
            forest_actions(path, todo),
            filled(state, base, done + todo),
        ).1);
    } else {
        let first = todo[0];
        let rest = todo.drop_first();
        let child = join(path, first.name);
        assert(opens(path, branch_names(todo)).drop_first() =~= opens(path, branch_names(rest)));
        assert(opens(path, branch_names(todo))[0] == (FolderTaskView::Open {
            path: child,
            name: first.name,
        }));
        lemma_folder(state, child, first.name, first.content);
        let middle = closed(state, first.name, first.content);
        // The folder that was read is new among those that were read before.
        assert((done + todo)[done.len() as int] == first);
        assert forall|j: int| 0 <= j < done.len() implies (#[trigger] done[j]).name
            != first.name by {
            assert((done + todo)[j] == done[j]);
        }
        lemma_first_named(done, first.name, done.len() as int);
        let opened = state.open.push(
            PartialView {
                name: first.name,
                content: Tree { files: Seq::empty(), ..first.content },
            },
        );
        assert(opened.drop_last() =~= state.open);
        assert(Tree { files: first.content.files, ..Tree { files: Seq::empty(), ..first.content } }
            == first.content);
        assert(middle == filled(state, state.agenda.drop_last(), done.push(first)));
        assert(middle.agenda =~= stacked(base, opens(path, branch_names(rest))));
        assert(done.push(first) + rest =~= done + todo);
        let first_actions = folder_actions(child, first.content);
        lemma_play_then(
            state,
            folder_events(first.content),
            first_actions,
            middle,
            forest_events(rest),
        );
        assert forall|i: int| 0 <= i < rest.len() implies (
        #[trigger] rest[i]).content.well_formed() by {
            assert(rest[i] == todo[i + 1]);
        }
        lemma_forest(middle, base, path, done.push(first), rest);
        let end = filled(state, base, done + todo);
        assert(middle.open.drop_last() =~= state.open.drop_last());
        assert(filled(middle, base, done.push(first) + rest) == end);
        assert(first_actions + (forest_actions(path, rest) + seq![end.advance().1])
            =~= forest_actions(path, todo) + seq![end.advance().1]);
    }
}

/// The answers of a device that holds `tree` to a whole traversal.
pub open spec fn answers(tree: Tree) -> Seq<EventView> {
    seq![EventView::Started] + folder_events(tree)
}

/// The state of a traversal that has succeeded and found `tree`.
pub open spec fn succeeded(tree: Tree) -> TraversalModel {
    TraversalModel {
        cancel_requested: false,
        agenda: Seq::empty(),
        open: Seq::empty(),
        found: Some(tree),
        waiting: TraversalWaitingView::Closed { result: Ok(()) },
    }
}

/// Against a device that holds `tree` in its folder `root`, a traversal
/// lists the folders and the files of every folder of the tree once, the
/// folders below a folder before the folder's own files, and ends in
/// success with exactly that tree: every folder under its name, in the
/// device's order, with its own files in the device's order and no file of
/// a folder below it.
pub proof fn lemma_traversal_of_tree(root: Seq<char>, tree: Tree)
    requires
        tree.well_formed(),
    ensures
        TraversalModel::start(root).run(answers(tree)) == (
            succeeded(tree),
            folder_actions(root, tree) + seq![ActionView::Finish { result: Ok(()) }],
        ),
        succeeded(tree).outcome() == Some(tree),
{
    let start = TraversalModel::start(root);
    lemma_run_cons(start, EventView::Started, folder_events(tree));
    assert(start.agenda.drop_last() =~= Seq::<FolderTaskView>::empty());
    lemma_folder(start, root, root, tree);
    let end = closed(start, root, tree);
    let opened = start.open.push(
        PartialView { name: root, content: Tree { files: Seq::empty(), ..tree } },
    );
    assert(opened.drop_last() =~= Seq::<PartialView>::empty());
    assert(Tree { files: tree.files, ..Tree { files: Seq::empty(), ..tree } } == tree);
    assert(end.advance().0 == succeeded(tree));
}

/// A traversal that is over stays over: whatever it is told, it keeps its
/// state and hands out its result again.
pub proof fn lemma_closed_stays(state: TraversalModel, events: Seq<EventView>)
    requires
        state.waiting is Closed,
    ensures
        state.run(events).0 == state,
        state.run(events).1.len() == events.len(),
        forall|i: int|
            0 <= i < events.len() ==> #[trigger] state.run(events).1[i] == (ActionView::Finish {
                result: state.waiting->Closed_result,
            }),
    decreases events.len(),
{
    if events.len() > 0 {
        lemma_closed_stays(state, events.drop_first());
    }
}

/// Whatever the device answers, a traversal hands out a well-formed tree or
/// none: in no folder of it two sub-folders have one name.
pub proof fn lemma_outcome_well_formed(state: TraversalModel, events: Seq<EventView>)
    requires
        sound(state),
    ensures
        sound(state.run(events).0),
        state.run(events).0.outcome() matches Some(tree) ==> tree.well_formed(),
    decreases events.len(),
{
    if events.len() > 0 {
        lemma_step_keeps_sound(state, events[0]);
        lemma_outcome_well_formed(state.step(events[0]).0, events.drop_first());
    }
}

/// Whatever the device answers from the start of a traversal on, the
/// traversal hands out a well-formed tree or none.
pub proof fn lemma_traversal_outcome_well_formed(root: Seq<char>, events: Seq<EventView>)
    ensures
        TraversalModel::start(root).run(events).0.outcome() matches Some(tree)
            ==> tree.well_formed(),
{
    lemma_outcome_well_formed(TraversalModel::start(root), events);
}

/// Once a stop is requested nothing more is asked of the device, whatever
/// it answers: the traversal is over with the answer to the listing in
/// hand.
pub proof fn lemma_stop_begins_nothing(state: TraversalModel, events: Seq<EventView>)
    requires
        state.cancel_requested,
    ensures
        forall|i: int|
            0 <= i < state.run(events).1.len() ==> (#[trigger] state.run(events).1[i]) is Finish,
    decreases events.len(),
{
    if events.len() > 0 {
        let (next, action) = state.step(events[0]);
        assert(next.waiting is Closed);
        lemma_closed_stays(next, events.drop_first());
        assert forall|i: int| 0 <= i < state.run(events).1.len() implies (
        #[trigger] state.run(events).1[i]) is Finish by {
            if i > 0 {
                assert(state.run(events).1[i] == next.run(events.drop_first()).1[i - 1]);
            }
        }
    }
}

} // verus!
