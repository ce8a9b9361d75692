//! What a whole move does when the device behind it holds a given tree.

use crate::coordinator::CoordinatorModel;
use crate::count::CountModel;
use crate::count_laws;
use crate::path::join;
use crate::protocol::{ActionView, EventView};
use crate::transfer::{Settings, TransferModel};
use crate::transfer_laws;
use crate::transfer_laws::{
    copies_of, deletions, deletions_of, downloads, effects, reports, Effects,
};
use crate::traversal::TraversalModel;
use crate::traversal_laws;
use crate::tree::{lemma_visits_len, Branch, Tree};
use vstd::prelude::*;

verus! {

/// `action` is asked of the device to learn what a folder holds.
pub open spec fn is_listing(action: ActionView) -> bool {
    action is ListFolders || action is ListFiles
}

/// All of `actions` are listings.
pub open spec fn all_listings(actions: Seq<ActionView>) -> bool {
    forall|i: int| 0 <= i < actions.len() ==> is_listing(#[trigger] actions[i])
}

/// A count asks for listings alone while it walks a folder.
pub proof fn lemma_count_lists(path: Seq<char>, tree: Tree)
    ensures
        all_listings(count_laws::folder_actions(path, tree)),
    decreases tree, 0nat,
{
    lemma_count_lists_forest(path, tree.folders);
}

/// A count asks for listings alone while it walks some folders in turn.
pub proof fn lemma_count_lists_forest(path: Seq<char>, branches: Seq<Branch>)
    ensures
        all_listings(count_laws::forest_actions(path, branches)),
    decreases branches, 1nat,
{
    if branches.len() > 0 {
        lemma_count_lists(join(path, branches[0].name), branches[0].content);
        lemma_count_lists_forest(path, branches.drop_first());
    }
}

/// Listings copy nothing, delete nothing and report nothing.
pub proof fn lemma_listings_effect_nothing(actions: Seq<ActionView>)
    requires
        all_listings(actions),
    ensures
        effects(actions) == Effects::none(),
    decreases actions.len(),
{
    if actions.len() == 0 {
        assert(actions =~= Seq::<ActionView>::empty());
        transfer_laws::lemma_effects_empty();
    } else {
        let head = actions.drop_last();
        let last = actions.last();
        assert forall|i: int| 0 <= i < head.len() implies is_listing(#[trigger] head[i]) by {
            assert(head[i] == actions[i]);
        }
        lemma_listings_effect_nothing(head);
        assert(is_listing(actions[actions.len() - 1]));
        assert(actions =~= head + seq![last]);
        transfer_laws::lemma_effects_listing(last, head);
    }
}

/// A count hands out one action for each event.
pub proof fn lemma_count_run_len(state: CountModel, events: Seq<EventView>)
    ensures
        state.run(events).1.len() == events.len(),
    decreases events.len(),
{
    if events.len() > 0 {
        lemma_count_run_len(state.step(events[0]).0, events.drop_first());
    }
}

/// As long as the count does not end in success, a move with progress does
/// what its count does.
pub proof fn lemma_counting_run(state: CoordinatorModel, events: Seq<EventView>)
    requires
        state is Counting,
        forall|i: int|
            0 <= i < events.len() ==> {
                let action = #[trigger] state->count.run(events).1[i];
                !(action is Finish && action->result is Ok)
            },
    ensures
        state.run(events) == (
            CoordinatorModel::Counting {
                count: state->count.run(events).0,
                root: state->root,
                destination_root: state->destination_root,
                delete_after_copy: state->delete_after_copy,
            },
            state->count.run(events).1,
        ),
    decreases events.len(),
{
    let count = state->count;
    if events.len() > 0 {
        let (counted, action) = count.step(events[0]);
        let rest = events.drop_first();
        lemma_count_run_len(counted, rest);
        assert(count.run(events).1[0] == action);
        assert forall|i: int| 0 <= i < rest.len() implies {
            let later = #[trigger] counted.run(rest).1[i];
            !(later is Finish && later->result is Ok)
        } by {
            assert(count.run(events).1[i + 1] == counted.run(rest).1[i]);
        }
        lemma_counting_run(state.step(events[0]).0, rest);
    }
}

/// Once the transfer is under way, a move does what its transfer does.
pub proof fn lemma_moving_run(state: CoordinatorModel, events: Seq<EventView>)
    requires
        state is Moving,
    ensures
        state.run(events) == (
            CoordinatorModel::Moving { transfer: state->transfer.run(events).0 },
            state->transfer.run(events).1,
        ),
    decreases events.len(),
{
    if events.len() > 0 {
        lemma_moving_run(state.step(events[0]).0, events.drop_first());
    }
}

/// A run of a move over two stretches of events is the run over the first,
/// continued over the second.
pub proof fn lemma_run_concat(
    state: CoordinatorModel,
    first: Seq<EventView>,
    second: Seq<EventView>,
)
    ensures
        state.run(first + second) == ({
            let (middle, actions) = state.run(first);
            let (end, more) = middle.run(second);
            (end, actions + more)
        }),
    decreases first.len(),
{
    if first.len() == 0 {
        assert(first + second =~= second);
        assert(Seq::<ActionView>::empty() + state.run(second).1 =~= state.run(second).1);
    } else {
        let (next, action) = state.step(first[0]);
        assert((first + second).drop_first() =~= first.drop_first() + second);
        lemma_run_concat(next, first.drop_first(), second);
        let (middle, actions) = next.run(first.drop_first());
        let (end, more) = middle.run(second);
        assert(seq![action] + (actions + more) =~= (seq![action] + actions) + more);
    }
}

/// What is fixed for the transfer of a move with progress over `tree`: the
/// files are reported against the number of files of the tree.
pub open spec fn settings_for(
    destination_root: Seq<char>,
    delete_after_copy: bool,
    tree: Tree,
) -> Settings {
    Settings { destination_root, delete_after_copy, total: Some(tree.total_files() as u64) }
}

/// The answers of a device that holds `tree` to a whole move with
/// progress: those to the count, then those to the transfer.
pub open spec fn answers(settings: Settings, tree: Tree) -> Seq<EventView> {
    count_laws::answers(tree) + transfer_laws::folder_events(settings, tree)
}

/// Against a device that holds `tree` in its folder `root`, a move with
/// progress counts the files of the tree, then transfers them against that
/// count, and ends in success with every file done.
pub proof fn lemma_move_of_tree(
    root: Seq<char>,
    destination_root: Seq<char>,
    delete_after_copy: bool,
    tree: Tree,
)
    requires
        tree.total_files() <= u64::MAX,
    ensures
        ({
            let settings = settings_for(destination_root, delete_after_copy, tree);
            CoordinatorModel::reporting(root, destination_root, delete_after_copy).run(
                answers(settings, tree),
            ) == (
                CoordinatorModel::Moving {
                    transfer: transfer_laws::succeeded(settings, tree.total_files()),
                },
                count_laws::folder_actions(root, tree) + transfer_laws::folder_actions(
                    settings,
                    root,
                    tree,
                    0,
                ) + seq![ActionView::Finish { result: Ok(()) }],
            )
        }),
{
    let settings = settings_for(destination_root, delete_after_copy, tree);
    let start = CoordinatorModel::reporting(root, destination_root, delete_after_copy);
    let count = CountModel::start(root);
    let asked = count_laws::answers(tree);
    let listings = count_laws::folder_actions(root, tree);
    let walk = transfer_laws::folder_actions(settings, root, tree, 0);
    let finish = ActionView::Finish { result: Ok(()) };
    // The count alone.
    count_laws::lemma_count_of_tree(root, tree);
    let head = asked.drop_last();
    let last = asked.last();
    assert(asked =~= head + seq![last]);
    count_laws::lemma_run_concat(count, head, seq![last]);
    lemma_count_run_len(count, head);
    let (nearly, before) = count.run(head);
    count_laws::lemma_run_one(nearly, last);
    let closing = nearly.step(last).1;
    let whole = count.run(asked).1;
    assert(whole == listings + seq![finish]);
    assert(whole == before + seq![closing]) by {
        assert(asked == head + seq![last]);
    }
    assert(before == listings) by {
        assert((before + seq![closing]).drop_last() =~= before);
        assert((listings + seq![finish]).drop_last() =~= listings);
    }
    assert(closing == finish) by {
        assert((before + seq![closing]).last() == closing);
        assert((listings + seq![finish]).last() == finish);
    }
    assert(nearly.step(last).0 == count_laws::succeeded(tree.total_files())) by {
        assert(asked == head + seq![last]);
    }
    // The move while it counts.
    lemma_count_lists(root, tree);
    assert forall|i: int| 0 <= i < head.len() implies {
        let action = #[trigger] count.run(head).1[i];
        !(action is Finish && action->result is Ok)
    } by {
        assert(is_listing(listings[i]));
    }
    lemma_counting_run(start, head);
    let counting_still = start.run(head).0;
    // The step from the count to the transfer.
    let begin = TransferModel::start(root, settings);
    let (moving, first) = begin.step(EventView::Started);
    assert(counting_still.step(last) == (CoordinatorModel::Moving { transfer: moving }, first));
    // The transfer.
    let rest = transfer_laws::folder_events(settings, tree);
    transfer_laws::lemma_transfer_of_tree(root, settings, tree);
    assert(transfer_laws::answers(settings, tree).drop_first() =~= rest);
    lemma_moving_run(CoordinatorModel::Moving { transfer: moving }, rest);
    assert(seq![first] + moving.run(rest).1 == walk + seq![finish]);
    // All of it.
    lemma_run_concat(start, head, seq![last] + rest);
    assert(answers(settings, tree) =~= head + (seq![last] + rest));
    assert((seq![last] + rest).drop_first() =~= rest);
    assert(listings + (seq![first] + moving.run(rest).1) =~= listings + walk + seq![finish]);
}

/// The effects of a whole move with progress over `tree` are what is due
/// for the files of the tree.
proof fn lemma_move_due(
    root: Seq<char>,
    destination_root: Seq<char>,
    delete_after_copy: bool,
    tree: Tree,
)
    requires
        tree.total_files() <= u64::MAX,
    ensures
        ({
            let settings = settings_for(destination_root, delete_after_copy, tree);
            effects(
                CoordinatorModel::reporting(root, destination_root, delete_after_copy).run(
                    answers(settings, tree),
                ).1,
            ) == transfer_laws::due(settings, tree.visits(root), 0)
        }),
{
    let settings = settings_for(destination_root, delete_after_copy, tree);
    let listings = count_laws::folder_actions(root, tree);
    let walk = transfer_laws::folder_actions(settings, root, tree, 0);
    let finish = seq![ActionView::Finish { result: Ok(()) }];
    lemma_move_of_tree(root, destination_root, delete_after_copy, tree);
    assert(listings + walk + finish =~= listings + (walk + finish));
    lemma_count_lists(root, tree);
    lemma_listings_effect_nothing(listings);
    transfer_laws::lemma_effects_concat(listings, walk + finish);
    transfer_laws::lemma_effects_none(effects(walk + finish));
    transfer_laws::lemma_walk_effects(settings, root, tree);
}

/// Against a device that holds `tree` in its folder `root`, a move with
/// progress reports once for each file of the tree: the first report says
/// one file done, each report one more than the report before it, and the
/// last one, and no other, that all files are done; every report names the
/// number of files of the tree as the total. The files of the tree, and no
/// others, are copied, each once, in the order in which the tree is
/// visited; they are deleted in that order if that is wanted, and none is
/// deleted otherwise.
pub proof fn lemma_move_effects(
    root: Seq<char>,
    destination_root: Seq<char>,
    delete_after_copy: bool,
    tree: Tree,
)
    requires
        tree.total_files() <= u64::MAX,
    ensures
        ({
            let settings = settings_for(destination_root, delete_after_copy, tree);
            let actions = CoordinatorModel::reporting(
                root,
                destination_root,
                delete_after_copy,
            ).run(answers(settings, tree)).1;
            let total = tree.total_files();
            &&& reports(actions).len() == total
            &&& forall|i: int|
                0 <= i < total ==> #[trigger] reports(actions)[i] == (ActionView::Report {
                    processed: (i + 1) as u64,
                    total: total as u64,
                })
            &&& downloads(actions) == copies_of(settings, tree.visits(root))
            &&& deletions(actions) == if delete_after_copy {
                deletions_of(tree.visits(root))
            } else {
                Seq::empty()
            }
        }),
{
    let settings = settings_for(destination_root, delete_after_copy, tree);
    let actions = CoordinatorModel::reporting(root, destination_root, delete_after_copy).run(
        answers(settings, tree),
    ).1;
    lemma_move_due(root, destination_root, delete_after_copy, tree);
    transfer_laws::lemma_effects_parts(actions);
    transfer_laws::lemma_due_parts(settings, tree.visits(root), 0);
    lemma_visits_len(tree, root);
}

/// The answers of a device that holds `tree` to a whole move without
/// progress.
pub open spec fn silent_answers(
    destination_root: Seq<char>,
    delete_after_copy: bool,
    tree: Tree,
) -> Seq<EventView> {
    transfer_laws::answers(Settings { destination_root, delete_after_copy, total: None }, tree)
}

/// Against a device that holds `tree` in its folder `root`, a move without
/// progress walks the tree once, without a count before it, copies the
/// files of the tree, each once, in the order in which the tree is visited,
/// deletes them if that is wanted, reports nothing, and ends in success.
pub proof fn lemma_silent_move_of_tree(
    root: Seq<char>,
    destination_root: Seq<char>,
    delete_after_copy: bool,
    tree: Tree,
)
    requires
        tree.total_files() <= u64::MAX,
    ensures
        ({
            let settings = Settings { destination_root, delete_after_copy, total: None };
            let (end, actions) = CoordinatorModel::silent(
                root,
                destination_root,
                delete_after_copy,
            ).run(silent_answers(destination_root, delete_after_copy, tree));
            &&& end == CoordinatorModel::Moving {
                transfer: transfer_laws::succeeded(settings, tree.total_files()),
            }
            &&& actions == transfer_laws::folder_actions(settings, root, tree, 0) + seq![
                ActionView::Finish { result: Ok(()) },
            ]
            &&& reports(actions) == Seq::<ActionView>::empty()
            &&& downloads(actions) == copies_of(settings, tree.visits(root))
            &&& deletions(actions) == if delete_after_copy {
                deletions_of(tree.visits(root))
            } else {
                Seq::empty()
            }
        }),
{
    let settings = Settings { destination_root, delete_after_copy, total: None };
    transfer_laws::lemma_transfer_of_tree(root, settings, tree);
    transfer_laws::lemma_transfer_effects(root, settings, tree);
    lemma_moving_run(
        CoordinatorModel::silent(root, destination_root, delete_after_copy),
        silent_answers(destination_root, delete_after_copy, tree),
    );
}

/// Against one device, a transfer copies what a traversal finds: the files
/// of the tree that the traversal hands out, each once and none besides,
/// in the order in which that tree is visited.
pub proof fn lemma_transfer_copies_what_traversal_finds(
    root: Seq<char>,
    settings: Settings,
    tree: Tree,
)
    requires
        tree.well_formed(),
        tree.total_files() <= u64::MAX,
    ensures
        ({
            let found = TraversalModel::start(root).run(traversal_laws::answers(tree)).0.outcome();
            let actions = TransferModel::start(root, settings).run(
                transfer_laws::answers(settings, tree),
            ).1;
            &&& found matches Some(content)
            &&& downloads(actions) == copies_of(settings, content.visits(root))
            &&& downloads(actions).len() == content.total_files()
        }),
{
    traversal_laws::lemma_traversal_of_tree(root, tree);
    transfer_laws::lemma_transfer_effects(root, settings, tree);
    lemma_visits_len(tree, root);
}

} // verus!
