//! What a transfer does when the device behind it holds a given tree.
//!
//! The device is modelled by the events with which it answers: for a folder
//! it lists what the tree holds there, and every copy, deletion and report
//! succeeds. The laws say what a transfer hands out against these answers.

use crate::path::{destination, join};
use crate::protocol::{ActionView, EventView, TransferError};
use crate::stack::stacked;
use crate::transfer::{copies, enters, Settings, TaskView, TransferModel, WaitingView};
use crate::tree::{
    branch_names, forest_files, forest_visits, lemma_forest_visits_len, lemma_visits_len,
    own_visits, Branch, RemoteFile, Tree,
};
use vstd::prelude::*;

verus! {

/// The answers of the device while one file is handled.
pub open spec fn file_events(settings: Settings) -> Seq<EventView> {
    seq![EventView::Downloaded] + (if settings.delete_after_copy {
        seq![EventView::Deleted]
    } else {
        Seq::empty()
    }) + (if settings.total is Some {
        seq![EventView::Reported]
    } else {
        Seq::empty()
    })
}

/// The answers of the device while `count` files of one folder are handled.
pub open spec fn files_events(settings: Settings, count: nat) -> Seq<EventView>
    decreases count,
{
    if count == 0 {
        Seq::empty()
    } else {
        file_events(settings) + files_events(settings, (count - 1) as nat)
    }
}

/// The answers of a device while the folder that holds `tree` is walked.
pub open spec fn folder_events(settings: Settings, tree: Tree) -> Seq<EventView>
    decreases tree,
{
    seq![EventView::Folders { names: tree.folder_names() }] + forest_events(
        settings,
        tree.folders,
    ) + seq![EventView::Files { names: tree.files }] + files_events(settings, tree.files.len())
}

/// The answers of a device while the folders `branches` are walked in turn.
pub open spec fn forest_events(settings: Settings, branches: Seq<Branch>) -> Seq<EventView>
    decreases branches,
{
    if branches.len() == 0 {
        Seq::empty()
    } else {
        folder_events(settings, branches[0].content) + forest_events(
            settings,
            branches.drop_first(),
        )
    }
}

/// What is asked for the file `file` of `folder` when `done` files are done
/// before it: its copy, then its deletion if that is wanted, then a report
/// if a total is known.
pub open spec fn file_actions(
    settings: Settings,
    folder: Seq<char>,
    file: Seq<char>,
    done: nat,
) -> Seq<ActionView> {
    seq![
        ActionView::Download {
            folder,
            file,
            destination: destination(settings.destination_root, folder, file),
        },
    ] + (if settings.delete_after_copy {
        seq![ActionView::Delete { folder, file }]
    } else {
        Seq::empty()
    }) + (match settings.total {
        Some(total) => seq![ActionView::Report { processed: (done + 1) as u64, total }],
        None => Seq::empty(),
    })
}

/// What is asked for the files `files` of `folder`, in their order.
pub open spec fn files_actions(
    settings: Settings,
    folder: Seq<char>,
    files: Seq<Seq<char>>,
    done: nat,
) -> Seq<ActionView>
    decreases files.len(),
{
    if files.len() == 0 {
        Seq::empty()
    } else {
        file_actions(settings, folder, files[0], done) + files_actions(
            settings,
            folder,
            files.drop_first(),
            done + 1,
        )
    }
}

/// What is asked while the folder `path`, which holds `tree`, is walked: its
/// folders are listed and walked first, then its files are listed and
/// handled.
pub open spec fn folder_actions(
    settings: Settings,
    path: Seq<char>,
    tree: Tree,
    done: nat,
) -> Seq<ActionView>
    decreases tree,
{
    seq![ActionView::ListFolders { path }] + forest_actions(settings, path, tree.folders, done)
        + seq![ActionView::ListFiles { path }] + files_actions(
        settings,
        path,
        tree.files,
        done + forest_files(tree.folders),
    )
}

/// What is asked while the folders `branches` of `path` are walked in turn.
pub open spec fn forest_actions(
    settings: Settings,
    path: Seq<char>,
    branches: Seq<Branch>,
    done: nat,
) -> Seq<ActionView>
    decreases branches,
{
    if branches.len() == 0 {
        Seq::empty()
    } else {
        folder_actions(settings, join(path, branches[0].name), branches[0].content, done)
            + forest_actions(
            settings,
            path,
            branches.drop_first(),
            done + branches[0].content.total_files(),
        )
    }
}

/// The run that takes up the next task of `state` and then goes through
/// `events`.
pub open spec fn play(state: TransferModel, events: Seq<EventView>) -> (
    TransferModel,
    Seq<ActionView>,
) {
    let (next, action) = state.advance();
    let (end, actions) = next.run(events);
    (end, seq![action] + actions)
}

/// The run that hands out `actions` and then takes up the next task of
/// `state`.
pub open spec fn then(actions: Seq<ActionView>, state: TransferModel) -> (
    TransferModel,
    Seq<ActionView>,
) {
    let (next, action) = state.advance();
    (next, actions + seq![action])
}

/// `state` between two tasks, with `agenda` left and `processed` files done.
pub open spec fn resting(
    state: TransferModel,
    agenda: Seq<TaskView>,
    processed: int,
) -> TransferModel {
    TransferModel { agenda, processed: processed as u64, waiting: WaitingView::Start, ..state }
}

/// A run over two stretches of events is the run over the first, continued
/// over the second.
pub proof fn lemma_run_concat(state: TransferModel, first: Seq<EventView>, second: Seq<EventView>)
    ensures
        state.run(first + second) == ({
            let (middle, actions) = state.run(first);
            let (end, more) = middle.run(second);
            (end, actions + more)
        }),
    decreases first.len(),
{
    if first.len() == 0 {
        assert(first + second =~= second);
        assert(Seq::<ActionView>::empty() + state.run(second).1 =~= state.run(second).1);
    } else {
        let (next, action) = state.step(first[0]);
        assert((first + second).drop_first() =~= first.drop_first() + second);
        lemma_run_concat(next, first.drop_first(), second);
        let (middle, actions) = next.run(first.drop_first());
        let (end, more) = middle.run(second);
        assert(seq![action] + (actions + more) =~= (seq![action] + actions) + more);
    }
}

/// A stretch of work that ends between two tasks is continued by whatever
/// follows.
proof fn lemma_play_then(
    state: TransferModel,
    first: Seq<EventView>,
    actions: Seq<ActionView>,
    middle: TransferModel,
    second: Seq<EventView>,
)
    requires
        play(state, first) == then(actions, middle),
    ensures
        play(state, first + second) == ({
            let (end, more) = play(middle, second);
            (end, actions + more)
        }),
{
    let (next, action) = state.advance();
    lemma_run_concat(next, first, second);
    let (resumed, last) = middle.advance();
    let (end, more) = resumed.run(second);
    assert(next.run(first).1 == (actions + seq![last]).drop_first()) by {
        assert((seq![action] + next.run(first).1).drop_first() =~= next.run(first).1);
    }
    assert(seq![action] + (next.run(first).1 + more) =~= actions + (seq![last] + more)) by {
        assert(seq![action] + next.run(first).1 == actions + seq![last]);
        assert(seq![action] + (next.run(first).1 + more) =~= (seq![action] + next.run(
            first,
        ).1) + more);
    }
}

/// A run over an event and more events is the step for the event, continued
/// over the rest.
proof fn lemma_run_cons(state: TransferModel, event: EventView, rest: Seq<EventView>)
    ensures
        state.run(seq![event] + rest) == ({
            let (next, action) = state.step(event);
            let (end, actions) = next.run(rest);
            (end, seq![action] + actions)
        }),
{
    assert((seq![event] + rest).drop_first() =~= rest);
}

/// A run over no event stays where it is.
proof fn lemma_run_none(state: TransferModel)
    ensures
        state.run(Seq::empty()) == (state, Seq::<ActionView>::empty()),
{
}

/// The work for one file, with the device answering as expected: the file
/// is copied, then deleted if wanted, counted, and reported if a total is
/// known.
proof fn lemma_copy(state: TransferModel, folder: Seq<char>, file: Seq<char>)
    requires
        state.agenda.len() > 0,
        state.agenda.last() == (TaskView::Copy { folder, file }),
        !state.cancel_requested,
        state.processed < u64::MAX,
    ensures
        play(state, file_events(state.settings)) == then(
            file_actions(state.settings, folder, file, state.processed as nat),
            resting(state, state.agenda.drop_last(), state.processed + 1),
        ),
{
    let settings = state.settings;
    let events = file_events(settings);
    let after = resting(state, state.agenda.drop_last(), state.processed + 1);
    let (copying, download) = state.advance();
    let none = Seq::<EventView>::empty();
    if settings.delete_after_copy {
        let (deleting, delete) = copying.step(EventView::Downloaded);
        let (counted, third) = deleting.step(EventView::Deleted);
        if settings.total is Some {
            assert(events =~= seq![EventView::Downloaded] + (seq![EventView::Deleted] + (seq![
                EventView::Reported,
            ] + none)));
            lemma_run_cons(copying, EventView::Downloaded, seq![EventView::Deleted] + (seq![
                EventView::Reported,
            ] + none));
            lemma_run_cons(deleting, EventView::Deleted, seq![EventView::Reported] + none);
            lemma_run_cons(counted, EventView::Reported, none);
            let (end, last) = counted.step(EventView::Reported);
            lemma_run_none(end);
            assert(end == after.advance().0);
            assert(play(state, events).1 =~= then(
                file_actions(settings, folder, file, state.processed as nat),
                after,
            ).1);
        } else {
            assert(events =~= seq![EventView::Downloaded] + (seq![EventView::Deleted] + none));
            lemma_run_cons(copying, EventView::Downloaded, seq![EventView::Deleted] + none);
            lemma_run_cons(deleting, EventView::Deleted, none);
            lemma_run_none(counted);
            assert(counted == after.advance().0);
            assert(play(state, events).1 =~= then(
                file_actions(settings, folder, file, state.processed as nat),
                after,
            ).1);
        }
    } else {
        let (counted, second) = copying.step(EventView::Downloaded);
        if settings.total is Some {
            assert(events =~= seq![EventView::Downloaded] + (seq![EventView::Reported] + none));
            lemma_run_cons(copying, EventView::Downloaded, seq![EventView::Reported] + none);
            lemma_run_cons(counted, EventView::Reported, none);
            let (end, last) = counted.step(EventView::Reported);
            lemma_run_none(end);
            assert(end == after.advance().0);
            assert(play(state, events).1 =~= then(
                file_actions(settings, folder, file, state.processed as nat),
                after,
            ).1);
        } else {
            assert(events =~= seq![EventView::Downloaded] + none);
            lemma_run_cons(copying, EventView::Downloaded, none);
            lemma_run_none(counted);
            assert(counted == after.advance().0);
            assert(play(state, events).1 =~= then(
                file_actions(settings, folder, file, state.processed as nat),
                after,
            ).1);
        }
    }
}

/// The work for the files of one folder, in their order.
proof fn lemma_copies(
    state: TransferModel,
    base: Seq<TaskView>,
    folder: Seq<char>,
    files: Seq<Seq<char>>,
)
    requires
        state.agenda == stacked(base, copies(folder, files)),
        !state.cancel_requested,
        state.processed + files.len() <= u64::MAX,
    ensures
        play(state, files_events(state.settings, files.len())) == then(
            files_actions(state.settings, folder, files, state.processed as nat),
            resting(state, base, state.processed + files.len()),
        ),
    decreases files.len(),
{
    let settings = state.settings;
    if files.len() == 0 {
        lemma_run_none(state.advance().0);
        assert(play(state, files_events(settings, 0)).1 =~= then(
            files_actions(settings, folder, files, state.processed as nat),
            resting(state, base, state.processed as int),
        ).1);
    } else {
        let rest = files.drop_first();
        assert(copies(folder, files).drop_first() =~= copies(folder, rest));
        lemma_copy(state, folder, files[0]);
        let middle = resting(state, state.agenda.drop_last(), state.processed + 1);
        assert(middle.agenda =~= stacked(base, copies(folder, rest)));
        lemma_play_then(
            state,
            file_events(settings),
            file_actions(settings, folder, files[0], state.processed as nat),
            middle,
            files_events(settings, rest.len()),
        );
        lemma_copies(middle, base, folder, rest);
        assert(resting(middle, base, middle.processed + rest.len()) == resting(
            state,
            base,
            state.processed + files.len(),
        ));
        assert(file_actions(settings, folder, files[0], state.processed as nat) + (files_actions(
            settings,
            folder,
            rest,
            middle.processed as nat,
        ) + seq![resting(state, base, state.processed + files.len()).advance().1])
            =~= files_actions(settings, folder, files, state.processed as nat) + seq![
            resting(state, base, state.processed + files.len()).advance().1,
        ]);
    }
}

/// The work for one folder that holds `tree`: its folders first, then its
/// own files.
proof fn lemma_folder(state: TransferModel, path: Seq<char>, tree: Tree)
    requires
        state.agenda.len() > 0,
        state.agenda.last() == (TaskView::Enter { path }),
        !state.cancel_requested,
        state.processed + tree.total_files() <= u64::MAX,
    ensures
        play(state, folder_events(state.settings, tree)) == then(
            folder_actions(state.settings, path, tree, state.processed as nat),
            resting(state, state.agenda.drop_last(), state.processed + tree.total_files()),
        ),
    decreases tree, 0nat,
{
    let settings = state.settings;
    let base = state.agenda.drop_last();
    let inner = forest_events(settings, tree.folders);
    let own = files_events(settings, tree.files.len());
    let listed = EventView::Folders { names: tree.folder_names() };
    let filed = EventView::Files { names: tree.files };
    let tail = inner + (seq![filed] + own);
    assert(folder_events(settings, tree) =~= seq![listed] + tail);
    let (asked, list_folders) = state.advance();
    lemma_run_cons(asked, listed, tail);
    // The folders below.
    let below = TransferModel {
        agenda: stacked(base.push(TaskView::List { path }), enters(path, tree.folder_names())),
        ..asked
    };
    assert(asked.step(listed) == below.advance());
    lemma_forest(below, base.push(TaskView::List { path }), path, tree.folders);
    let drained = resting(
        below,
        base.push(TaskView::List { path }),
        state.processed + forest_files(tree.folders),
    );
    let inner_actions = forest_actions(settings, path, tree.folders, state.processed as nat);
    lemma_play_then(below, inner, inner_actions, drained, seq![filed] + own);
    // The folder's own files.
    let (asked_files, list_files) = drained.advance();
    assert(drained.agenda.drop_last() =~= base);
    lemma_run_cons(asked_files, filed, own);
    let filled = TransferModel { agenda: stacked(base, copies(path, tree.files)), ..asked_files };
    assert(asked_files.step(filed) == filled.advance());
    lemma_copies(filled, base, path, tree.files);
    let end = resting(state, base, state.processed + tree.total_files());
    assert(resting(filled, base, filled.processed + tree.files.len()) == end);
    let own_actions = files_actions(settings, path, tree.files, drained.processed as nat);
    assert(play(state, folder_events(settings, tree)).0 == end.advance().0);
    assert(play(state, folder_events(settings, tree)).1 =~= seq![list_folders] + (inner_actions + (
        seq![list_files] + (own_actions + seq![end.advance().1]))));
    assert(seq![list_folders] + (inner_actions + (seq![list_files] + (own_actions + seq![
        end.advance().1,
    ]))) =~= folder_actions(settings, path, tree, state.processed as nat) + seq![
        end.advance().1,
    ]);
}

/// The work for the folders `branches` of the folder `path`, in their order.
proof fn lemma_forest(
    state: TransferModel,
    base: Seq<TaskView>,
    path: Seq<char>,
    branches: Seq<Branch>,
)
    requires
        state.agenda == stacked(base, enters(path, branch_names(branches))),
        !state.cancel_requested,
        state.processed + forest_files(branches) <= u64::MAX,
    ensures
        play(state, forest_events(state.settings, branches)) == then(
            forest_actions(state.settings, path, branches, state.processed as nat),
            resting(state, base, state.processed + forest_files(branches)),
        ),
    decreases branches, 1nat,
{
    let settings = state.settings;
    if branches.len() == 0 {
        lemma_run_none(state.advance().0);
        assert(play(state, forest_events(settings, branches)).1 =~= then(
            forest_actions(settings, path, branches, state.processed as nat),
            resting(state, base, state.processed as int),
        ).1);
    } else {
        let first = branches[0];
        let rest = branches.drop_first();
        let child = join(path, first.name);
        assert(enters(path, branch_names(branches)).drop_first() =~= enters(
            path,
            branch_names(rest),
        ));
        assert(enters(path, branch_names(branches))[0] == (TaskView::Enter { path: child }));
        lemma_folder(state, child, first.content);
        let middle = resting(
            state,
            state.agenda.drop_last(),
            state.processed + first.content.total_files(),
        );
        assert(middle.agenda =~= stacked(base, enters(path, branch_names(rest))));
        let first_actions = folder_actions(settings, child, first.content, state.processed as nat);
        lemma_play_then(
            state,
            folder_events(settings, first.content),
            first_actions,
            middle,
            forest_events(settings, rest),
        );
        lemma_forest(middle, base, path, rest);
        let end = resting(state, base, state.processed + forest_files(branches));
        assert(resting(middle, base, middle.processed + forest_files(rest)) == end);
        assert(first_actions + (forest_actions(settings, path, rest, middle.processed as nat)
            + seq![end.advance().1]) =~= forest_actions(
            settings,
            path,
            branches,
            state.processed as nat,
        ) + seq![end.advance().1]);
    }
}

/// The copies asked for among `actions`, in order.
pub open spec fn downloads(actions: Seq<ActionView>) -> Seq<ActionView> {
    actions.filter(|action: ActionView| action is Download)
}

/// The deletions asked for among `actions`, in order.
pub open spec fn deletions(actions: Seq<ActionView>) -> Seq<ActionView> {
    actions.filter(|action: ActionView| action is Delete)
}

/// The reports made among `actions`, in order.
pub open spec fn reports(actions: Seq<ActionView>) -> Seq<ActionView> {
    actions.filter(|action: ActionView| action is Report)
}

/// The copy of each of `files`, in order, each to its own place below the
/// destination.
pub open spec fn copies_of(settings: Settings, files: Seq<RemoteFile>) -> Seq<ActionView> {
    Seq::new(
        files.len(),
        |i: int|
            ActionView::Download {
                folder: files[i].folder,
                file: files[i].file,
                destination: destination(settings.destination_root, files[i].folder, files[i].file),
            },
    )
}

/// The deletion of each of `files`, in order.
pub open spec fn deletions_of(files: Seq<RemoteFile>) -> Seq<ActionView> {
    Seq::new(
        files.len(),
        |i: int| ActionView::Delete { folder: files[i].folder, file: files[i].file },
    )
}

/// `count` reports against `total`, which count up one by one from
/// `done + 1`.
pub open spec fn counting(done: nat, count: nat, total: u64) -> Seq<ActionView> {
    Seq::new(count, |i: int| ActionView::Report { processed: (done + i + 1) as u64, total })
}

/// Copies, deletions and reports, each kind in its order.
pub struct Effects {
    pub downloads: Seq<ActionView>,
    pub deletions: Seq<ActionView>,
    pub reports: Seq<ActionView>,
}

impl Effects {
    /// No copy, no deletion, no report.
    pub open spec fn none() -> Effects {
        Effects { downloads: Seq::empty(), deletions: Seq::empty(), reports: Seq::empty() }
    }

    /// These effects, and then those of `later`.
    pub open spec fn followed_by(self, later: Effects) -> Effects {
        Effects {
            downloads: self.downloads + later.downloads,
            deletions: self.deletions + later.deletions,
            reports: self.reports + later.reports,
        }
    }
}

/// The copies, deletions and reports among `actions`.
#[verifier::opaque]
pub open spec fn effects(actions: Seq<ActionView>) -> Effects {
    Effects {
        downloads: downloads(actions),
        deletions: deletions(actions),
        reports: reports(actions),
    }
}

/// The copies, deletions and reports that are due for `files` when `done`
/// files are done before them.
#[verifier::opaque]
pub open spec fn due(settings: Settings, files: Seq<RemoteFile>, done: nat) -> Effects {
    Effects {
        downloads: copies_of(settings, files),
        deletions: if settings.delete_after_copy {
            deletions_of(files)
        } else {
            Seq::empty()
        },
        reports: match settings.total {
            Some(total) => counting(done, files.len(), total),
            None => Seq::empty(),
        },
    }
}

/// The effects of actions are the copies, the deletions and the reports
/// among them.
pub proof fn lemma_effects_parts(actions: Seq<ActionView>)
    ensures
        effects(actions).downloads == downloads(actions),
        effects(actions).deletions == deletions(actions),
        effects(actions).reports == reports(actions),
{
    reveal(effects);
}

/// What is due for files are their copies, their deletions if wanted, and
/// their reports if a total is known.
pub proof fn lemma_due_parts(settings: Settings, files: Seq<RemoteFile>, done: nat)
    ensures
        due(settings, files, done).downloads == copies_of(settings, files),
        due(settings, files, done).deletions == if settings.delete_after_copy {
            deletions_of(files)
        } else {
            Seq::empty()
        },
        due(settings, files, done).reports == match settings.total {
            Some(total) => counting(done, files.len(), total),
            None => Seq::empty(),
        },
{
    reveal(due);
}

/// Nothing before or after effects leaves them as they are.
pub proof fn lemma_effects_none(some: Effects)
    ensures
        Effects::none().followed_by(some) == some,
        some.followed_by(Effects::none()) == some,
{
    let none = Seq::<ActionView>::empty();
    assert(none + some.downloads =~= some.downloads);
    assert(none + some.deletions =~= some.deletions);
    assert(none + some.reports =~= some.reports);
    assert(some.downloads + none =~= some.downloads);
    assert(some.deletions + none =~= some.deletions);
    assert(some.reports + none =~= some.reports);
}

/// The effects of two stretches of actions are those of the first, followed
/// by those of the second.
pub proof fn lemma_effects_concat(first: Seq<ActionView>, second: Seq<ActionView>)
    ensures
        effects(first + second) == effects(first).followed_by(effects(second)),
{
    reveal(effects);
    Seq::filter_distributes_over_add(first, second, |action: ActionView| action is Download);
    Seq::filter_distributes_over_add(first, second, |action: ActionView| action is Delete);
    Seq::filter_distributes_over_add(first, second, |action: ActionView| action is Report);
}

/// No action has no effect.
pub proof fn lemma_effects_empty()
    ensures
        effects(Seq::empty()) == Effects::none(),
{
    reveal(effects);
    reveal(Seq::filter);
}

/// One action is its own effect, if it is a copy, a deletion or a report.
pub proof fn lemma_effects_one(action: ActionView)
    ensures
        effects(seq![action]) == (Effects {
            downloads: if action is Download {
                seq![action]
            } else {
                Seq::empty()
            },
            deletions: if action is Delete {
                seq![action]
            } else {
                Seq::empty()
            },
            reports: if action is Report {
                seq![action]
            } else {
                Seq::empty()
            },
        }),
{
    reveal(effects);
    reveal(Seq::filter);
    let one = seq![action];
    let none = Seq::<ActionView>::empty();
    assert(one.drop_last() =~= none);
    assert(one.last() == action);
    assert(downloads(none) == none);
    assert(deletions(none) == none);
    assert(reports(none) == none);
    assert(downloads(one) =~= if action is Download {
        seq![action]
    } else {
        none
    });
    assert(deletions(one) =~= if action is Delete {
        seq![action]
    } else {
        none
    });
    assert(reports(one) =~= if action is Report {
        seq![action]
    } else {
        none
    });
}

/// A listing is no copy, no deletion and no report: before or after other
/// actions it changes nothing of their effects.
pub proof fn lemma_effects_listing(listing: ActionView, actions: Seq<ActionView>)
    requires
        listing is ListFolders || listing is ListFiles,
    ensures
        effects(seq![listing] + actions) == effects(actions),
        effects(actions + seq![listing]) == effects(actions),
{
    lemma_effects_one(listing);
    lemma_effects_concat(seq![listing], actions);
    lemma_effects_concat(actions, seq![listing]);
    lemma_effects_none(effects(actions));
}

/// What is due for two runs of files, one after the other, is due for the
/// whole run.
proof fn lemma_due_concat(
    settings: Settings,
    first: Seq<RemoteFile>,
    second: Seq<RemoteFile>,
    done: nat,
)
    ensures
        due(settings, first + second, done) == due(settings, first, done).followed_by(
            due(settings, second, done + first.len()),
        ),
{
    reveal(due);
    let whole = first + second;
    assert(copies_of(settings, whole) =~= copies_of(settings, first) + copies_of(
        settings,
        second,
    ));
    assert(deletions_of(whole) =~= deletions_of(first) + deletions_of(second));
    if settings.total is Some {
        let total = settings.total->0;
        assert(counting(done, whole.len(), total) =~= counting(done, first.len(), total)
            + counting(done + first.len(), second.len(), total));
    }
    let none = Seq::<ActionView>::empty();
    assert(none + none =~= none);
}

/// For no file nothing is due.
proof fn lemma_due_none(settings: Settings, done: nat)
    ensures
        due(settings, Seq::empty(), done) == Effects::none(),
{
    reveal(due);
    let nothing = Seq::<RemoteFile>::empty();
    assert(copies_of(settings, nothing) =~= Seq::<ActionView>::empty());
    assert(deletions_of(nothing) =~= Seq::<ActionView>::empty());
    if settings.total is Some {
        assert(counting(done, 0, settings.total->0) =~= Seq::<ActionView>::empty());
    }
}

/// The effects of the actions for one file are its copy, its deletion if
/// wanted, and its report if a total is known.
proof fn lemma_file_effects(settings: Settings, folder: Seq<char>, file: Seq<char>, done: nat)
    ensures
        effects(file_actions(settings, folder, file, done)) == due(
            settings,
            seq![RemoteFile { folder, file }],
            done,
        ),
{
    reveal(due);
    let one = seq![RemoteFile { folder, file }];
    let none = Seq::<ActionView>::empty();
    let copy = ActionView::Download {
        folder,
        file,
        destination: destination(settings.destination_root, folder, file),
    };
    let delete = ActionView::Delete { folder, file };
    let first = seq![copy];
    let second = if settings.delete_after_copy {
        seq![delete]
    } else {
        none
    };
    let third = match settings.total {
        Some(total) => seq![ActionView::Report { processed: (done + 1) as u64, total }],
        None => none,
    };
    lemma_effects_empty();
    lemma_effects_one(copy);
    lemma_effects_one(delete);
    if settings.total is Some {
        lemma_effects_one(third[0]);
        assert(third =~= seq![third[0]]);
        assert(counting(done, 1, settings.total->0) =~= third);
    }
    lemma_effects_concat(first, second);
    lemma_effects_concat(first + second, third);
    assert(copies_of(settings, one) =~= first);
    assert(deletions_of(one) =~= seq![delete]);
    assert(first + none + none =~= first);
    assert(none + second + none =~= second);
    assert(none + none + third =~= third);
}

/// The files of a folder are its first file and the others.
proof fn lemma_own_visits_first(folder: Seq<char>, files: Seq<Seq<char>>)
    requires
        files.len() > 0,
    ensures
        own_visits(folder, files) == seq![RemoteFile { folder, file: files[0] }] + own_visits(
            folder,
            files.drop_first(),
        ),
{
    assert(own_visits(folder, files) =~= seq![RemoteFile { folder, file: files[0] }] + own_visits(
        folder,
        files.drop_first(),
    ));
}

/// The effects of the actions for the files of one folder are their copies,
/// their deletions if wanted, and their reports if a total is known.
proof fn lemma_files_effects(
    settings: Settings,
    folder: Seq<char>,
    files: Seq<Seq<char>>,
    done: nat,
)
    ensures
        effects(files_actions(settings, folder, files, done)) == due(
            settings,
            own_visits(folder, files),
            done,
        ),
    decreases files.len(),
{
    if files.len() == 0 {
        lemma_effects_empty();
        lemma_due_none(settings, done);
        assert(own_visits(folder, files) =~= Seq::<RemoteFile>::empty());
    } else {
        let rest = files.drop_first();
        let one = seq![RemoteFile { folder, file: files[0] }];
        lemma_file_effects(settings, folder, files[0], done);
        lemma_files_effects(settings, folder, rest, done + 1);
        lemma_effects_concat(
            file_actions(settings, folder, files[0], done),
            files_actions(settings, folder, rest, done + 1),
        );
        lemma_own_visits_first(folder, files);
        lemma_due_concat(settings, one, own_visits(folder, rest), done);
    }
}

/// The effects of the actions for one folder are the copies, deletions and
/// reports for all files in it and below it, in the order in which the tree
/// is visited.
pub proof fn lemma_folder_effects(settings: Settings, path: Seq<char>, tree: Tree, done: nat)
    ensures
        effects(folder_actions(settings, path, tree, done)) == due(
            settings,
            tree.visits(path),
            done,
        ),
    decreases tree, 0nat,
{
    let list_folders = ActionView::ListFolders { path };
    let inner = forest_actions(settings, path, tree.folders, done);
    let list_files = ActionView::ListFiles { path };
    let own = files_actions(settings, path, tree.files, done + forest_files(tree.folders));
    lemma_forest_effects(settings, path, tree.folders, done);
    lemma_files_effects(settings, path, tree.files, done + forest_files(tree.folders));
    lemma_effects_listing(list_folders, inner);
    lemma_effects_listing(list_files, seq![list_folders] + inner);
    lemma_effects_concat(seq![list_folders] + inner + seq![list_files], own);
    lemma_forest_visits_len(path, tree.folders);
    lemma_due_concat(
        settings,
        forest_visits(path, tree.folders),
        own_visits(path, tree.files),
        done,
    );
}

/// The effects of the actions for the folders `branches` are the copies,
/// deletions and reports for all files in them, one folder after the other.
pub proof fn lemma_forest_effects(
    settings: Settings,
    path: Seq<char>,
    branches: Seq<Branch>,
    done: nat,
)
    ensures
        effects(forest_actions(settings, path, branches, done)) == due(
            settings,
            forest_visits(path, branches),
            done,
        ),
    decreases branches, 1nat,
{
    if branches.len() == 0 {
        lemma_effects_empty();
        lemma_due_none(settings, done);
    } else {
        let first = branches[0];
        let rest = branches.drop_first();
        let child = join(path, first.name);
        lemma_folder_effects(settings, child, first.content, done);
        lemma_forest_effects(settings, path, rest, done + first.content.total_files());
        lemma_effects_concat(
            folder_actions(settings, child, first.content, done),
            forest_actions(settings, path, rest, done + first.content.total_files()),
        );
        lemma_visits_len(first.content, child);
        lemma_due_concat(settings, first.content.visits(child), forest_visits(path, rest), done);
    }
}

/// The answers of a device that holds `tree` to a whole transfer.
pub open spec fn answers(settings: Settings, tree: Tree) -> Seq<EventView> {
    seq![EventView::Started] + folder_events(settings, tree)
}

/// The state of a transfer that has succeeded with `processed` files done.
pub open spec fn succeeded(settings: Settings, processed: nat) -> TransferModel {
    TransferModel {
        settings,
        processed: processed as u64,
        cancel_requested: false,
        agenda: Seq::empty(),
        waiting: WaitingView::Closed { result: Ok(()) },
    }
}

/// Against a device that holds `tree` in its folder `root`, a transfer asks
/// for the folders and files of each folder, walks the sub-folders of a
/// folder before it touches the folder's own files, handles each file
/// once, and ends in success with every file counted.
pub proof fn lemma_transfer_of_tree(root: Seq<char>, settings: Settings, tree: Tree)
    requires
        tree.total_files() <= u64::MAX,
    ensures
        TransferModel::start(root, settings).run(answers(settings, tree)) == (
            succeeded(settings, tree.total_files()),
            folder_actions(settings, root, tree, 0) + seq![ActionView::Finish { result: Ok(()) }],
        ),
{
    let start = TransferModel::start(root, settings);
    lemma_run_cons(start, EventView::Started, folder_events(settings, tree));
    assert(start.agenda.drop_last() =~= Seq::<TaskView>::empty());
    lemma_folder(start, root, tree);
    let end = resting(start, Seq::empty(), tree.total_files() as int);
    assert(end.advance().0 == succeeded(settings, tree.total_files()));
}

/// The effects of a whole walk of `tree`, with the end of the transfer
/// behind it, are what is due for the files of the tree.
pub proof fn lemma_walk_effects(settings: Settings, root: Seq<char>, tree: Tree)
    ensures
        effects(
            folder_actions(settings, root, tree, 0) + seq![ActionView::Finish { result: Ok(()) }],
        ) == due(settings, tree.visits(root), 0),
{
    let walk = folder_actions(settings, root, tree, 0);
    let finish = ActionView::Finish { result: Ok(()) };
    lemma_folder_effects(settings, root, tree, 0);
    lemma_effects_one(finish);
    lemma_effects_concat(walk, seq![finish]);
    lemma_effects_none(effects(walk));
}

/// Against a device that holds `tree` in its folder `root`, a transfer
/// copies exactly the files of the tree, each once, in the order in which
/// the tree is visited and each to the place that the destination and the
/// file's folder and name give it; it deletes the same files in the same
/// order if that is wanted, and no file otherwise; and where a total is
/// known it reports once for each file, counting up from one.
pub proof fn lemma_transfer_effects(root: Seq<char>, settings: Settings, tree: Tree)
    requires
        tree.total_files() <= u64::MAX,
    ensures
        ({
            let actions = TransferModel::start(root, settings).run(answers(settings, tree)).1;
            &&& downloads(actions) == copies_of(settings, tree.visits(root))
            &&& deletions(actions) == if settings.delete_after_copy {
                deletions_of(tree.visits(root))
            } else {
                Seq::empty()
            }
            &&& reports(actions) == match settings.total {
                Some(total) => counting(0, tree.total_files(), total),
                None => Seq::empty(),
            }
        }),
{
    lemma_transfer_of_tree(root, settings, tree);
    let walk = folder_actions(settings, root, tree, 0);
    let finish = ActionView::Finish { result: Ok(()) };
    lemma_walk_effects(settings, root, tree);
    lemma_visits_len(tree, root);
    lemma_effects_parts(walk + seq![finish]);
    lemma_due_parts(settings, tree.visits(root), 0);
}

/// Each failure ends the transfer with its own error: a copy that fails
/// with `DownloadError`, a deletion that fails with `DeleteError`, which
/// tells that the file is copied and still on the device, and a listing
/// that fails with `ListingError`.
pub proof fn lemma_failure_has_its_error(state: TransferModel)
    ensures
        state.waiting is Download ==> state.step(EventView::Failed) == state.finish(
            Err(TransferError::DownloadError),
        ),
        state.waiting is Delete ==> state.step(EventView::Failed) == state.finish(
            Err(TransferError::DeleteError),
        ),
        state.waiting is Folders || state.waiting is Files ==> state.step(EventView::Failed)
            == state.finish(Err(TransferError::ListingError)),
{
}

/// A transfer that is over stays over: whatever it is told, it keeps its
/// state and hands out its result again.
pub proof fn lemma_closed_stays(state: TransferModel, events: Seq<EventView>)
    requires
        state.waiting is Closed,
    ensures
        state.run(events).0 == state,
        state.run(events).1.len() == events.len(),
        forall|i: int|
            0 <= i < events.len() ==> #[trigger] state.run(events).1[i] == (ActionView::Finish {
                result: state.waiting->Closed_result,
            }),
    decreases events.len(),
{
    if events.len() > 0 {
        lemma_closed_stays(state, events.drop_first());
    }
}

/// After a copy that failed nothing is asked of the device any more: no
/// deletion of the file whose copy failed, and none of any other.
pub proof fn lemma_failed_copy_ends_all(state: TransferModel, events: Seq<EventView>)
    requires
        state.waiting is Download,
        events.len() > 0,
        events[0] == EventView::Failed,
    ensures
        state.run(events).1.len() == events.len(),
        forall|i: int|
            0 <= i < events.len() ==> #[trigger] state.run(events).1[i] == (ActionView::Finish {
                result: Err(TransferError::DownloadError),
            }),
{
    let closed = state.step(events[0]).0;
    lemma_closed_stays(closed, events.drop_first());
}

/// A transfer that waits for a copy has just asked for that copy.
pub proof fn lemma_waits_for_what_it_asked(state: TransferModel, event: EventView)
    ensures
        state.step(event).0.waiting matches WaitingView::Download { folder, file } ==> (
        state.step(event).0 == state && state.waiting is Closed) || state.step(event).1 == (
        ActionView::Download {
            folder,
            file,
            destination: destination(state.settings.destination_root, folder, file),
        }),
{
}

/// A transfer hands out one action for each event.
pub proof fn lemma_run_len(state: TransferModel, events: Seq<EventView>)
    ensures
        state.run(events).1.len() == events.len(),
    decreases events.len(),
{
    if events.len() > 0 {
        lemma_run_len(state.step(events[0]).0, events.drop_first());
    }
}

/// Whatever the device answers, a deletion is asked for only directly
/// after the copy of the same file, and only when that copy was reported
/// as written: no file is deleted before it is copied, and none whose copy
/// failed.
pub proof fn lemma_deletion_follows_copy(state: TransferModel, events: Seq<EventView>, at: int)
    requires
        0 <= at < events.len(),
        state.run(events).1[at] is Delete,
    ensures
        events[at] == EventView::Downloaded,
        state.settings.delete_after_copy,
        at == 0 ==> state.waiting == (WaitingView::Download {
            folder: state.run(events).1[at]->Delete_folder,
            file: state.run(events).1[at]->Delete_file,
        }),
        at > 0 ==> state.run(events).1[at - 1] == (ActionView::Download {
            folder: state.run(events).1[at]->Delete_folder,
            file: state.run(events).1[at]->Delete_file,
            destination: destination(
                state.settings.destination_root,
                state.run(events).1[at]->Delete_folder,
                state.run(events).1[at]->Delete_file,
            ),
        }),
    decreases events.len(),
{
    let (next, action) = state.step(events[0]);
    let rest = events.drop_first();
    lemma_run_len(next, rest);
    if at > 0 {
        assert(state.run(events).1[at] == next.run(rest).1[at - 1]);
        assert(next.settings == state.settings);
        lemma_deletion_follows_copy(next, rest, at - 1);
        if at == 1 {
            lemma_waits_for_what_it_asked(state, events[0]);
            assert(state.run(events).1[0] == action);
        } else {
            assert(state.run(events).1[at - 1] == next.run(rest).1[at - 2]);
        }
    } else {
        assert(state.run(events).1[0] == action);
    }
}

/// Once a stop is requested nothing new is begun, whatever the device
/// answers: no folder is listed and no file is copied. The file in hand may
/// still be deleted and reported, and will be counted; then the transfer
/// is over.
pub proof fn lemma_stop_begins_nothing(state: TransferModel, events: Seq<EventView>)
    requires
        state.cancel_requested,
    ensures
        state.run(events).0.cancel_requested,
        state.run(events).0.processed <= state.processed + 1,
        state.waiting is Report || state.waiting is Closed || state.waiting is Start
            || state.waiting is Folders || state.waiting is Files ==> state.run(events).0.processed
            == state.processed,
        forall|i: int|
            0 <= i < state.run(events).1.len() ==> {
                let action = #[trigger] state.run(events).1[i];
                action is Delete || action is Report || action is Finish
            },
    decreases events.len(),
{
    if events.len() > 0 {
        let (next, action) = state.step(events[0]);
        lemma_stop_begins_nothing(next, events.drop_first());
        assert(action is Delete || action is Report || action is Finish);
        if next.processed != state.processed {
            assert(next.waiting is Report || next.waiting is Closed);
        }
        assert forall|i: int| 0 <= i < state.run(events).1.len() implies {
            let later = #[trigger] state.run(events).1[i];
            later is Delete || later is Report || later is Finish
        } by {
            if i > 0 {
                assert(state.run(events).1[i] == next.run(events.drop_first()).1[i - 1]);
            }
        }
    }
}

} // verus!
