use gix_tix::auto_merge::choices::{
    additions, choices, decorated_tip, follows_reference, input_pins, removals, sources, Candidate,
    Change, Decoration, DecorationKind, Selected,
};
use gix_tix::auto_merge::definition::{
    allowed_ref, ensure_editable, find_input, is_auto_merge, Definition, Header, Input,
    InputSource, HEADER,
};
use gix_tix::auto_merge::expand::{add_references, expand_plan, Head};
use gix_tix::auto_merge::order::order_plan;
use gix_tix::auto_merge::perform::{
    change_merge, is_eager, operation_notice, Outcome, Rebuild, Site,
};
use gix_tix::auto_merge::prepare::{
    checkout_path, contains, ordered, prepare, Graph, Merge, MergeBase,
};
use gix_tix::auto_merge::rebuild::{
    live_inputs, rebuilt, rebuilt_commit, rebuilt_message, rebuilt_parents, tree_source, Merging,
    Rebuilt, TreeSource,
};
use gix_tix::auto_merge::resolve::{
    find_destination, join, mapped, resolve, resolve_destination, Commit, CommitInfo, Planned,
    References, Rewrite, Snapshot,
};
use gix_tix::auto_merge::topology::order;
use gix_tix::auto_merge::MergeError;
use gix_tix::head::{select_tree, HeadCommit, HeadError, Index, Kind};
use gix_tix::ids::{ChangeId, ObjectId};
use gix_tix::names::FullName;
use gix_tix::plan::{
    Plan, PlanCheckout, PlanCommit, PlanParent, PlanRef, PlanStep, RefDestination,
};
use gix_tix::refs::{Reference, State};
use gix_tix::reword::actor::{Actor, Time};
use gix_tix::reword::apply::{check_reword, revise_message, Described};
use gix_tix::reword::document::Signature;
use gix_tix::reword::RewordError;
use gix_tix::time_travel::attach::{plan_attach, plan_following};
use gix_tix::time_travel::moves::{plan_move, Checkout, Request, Worktree};
use gix_tix::time_travel::pins::Pin;
use gix_tix::time_travel::travel::{find_replay_base, Waypoint};
use gix_tix::time_travel::TravelError;
use gix_tix::undo::changes::{reverse_all, RefChange, Target};

const MAIN: u32 = 1;
const A: u32 = 2;
const B: u32 = 3;
const C: u32 = 4;
const MERGE: u32 = 5;
const OTHER: u32 = 6;
const BASE: u32 = 7;

fn id(number: u32) -> ObjectId {
    ObjectId { high: 0xabc, low: number }
}

fn change_id(number: u32) -> ChangeId {
    ChangeId { id: ObjectId { high: 0, low: number } }
}

fn name(text: &str) -> FullName {
    FullName::new(text.as_bytes()).unwrap()
}

fn branch(text: &str) -> FullName {
    name(&format!("refs/heads/{text}"))
}

fn follow(text: &str, number: u32) -> Input<FullName> {
    Input { source: InputSource::Reference(branch(text)), commit_id: id(number), muted: false }
}

fn tracked_change(change: u32, number: u32) -> Input<FullName> {
    Input {
        source: InputSource::Change(change_id(change)),
        commit_id: id(number),
        muted: false,
    }
}

fn commit(number: u32, parents: &[u32]) -> Commit {
    CommitInfo {
        id: id(number),
        parents: parents.iter().map(|parent| id(*parent)).collect(),
        change: change_id(number),
        pending: false,
        headers: Vec::new(),
    }
}

fn merge_commit(number: u32, inputs: Vec<Input<FullName>>) -> Commit {
    let parents = inputs.iter().map(|input| input.commit_id).collect();
    CommitInfo {
        id: id(number),
        parents,
        change: change_id(number),
        pending: false,
        headers: Definition { inputs }.store(Vec::new()),
    }
}

fn at(text: &str, number: u32) -> Reference<FullName> {
    Reference { name: branch(text), state: State::Object(id(number)) }
}

/// `main` with the branches `A`, `B` and `C` on top.
fn snapshot() -> Snapshot {
    Snapshot {
        references: vec![at("main", MAIN), at("A", A), at("B", B), at("C", C)],
        commits: vec![
            commit(MAIN, &[]),
            commit(A, &[MAIN]),
            commit(B, &[MAIN]),
            commit(C, &[MAIN]),
        ],
        peeled: [MAIN, A, B, C, MERGE, OTHER, BASE]
            .iter()
            .map(|number| (id(*number), id(*number)))
            .collect(),
    }
}

fn version(number: u32, change: u32, parents: &[u32]) -> Commit {
    let mut commit = commit(number, parents);
    commit.change = change_id(change);
    commit
}

fn with_merge(inputs: Vec<Input<FullName>>) -> Snapshot {
    let mut snapshot = snapshot();
    snapshot.commits.push(merge_commit(MERGE, inputs));
    snapshot
}

fn base(one: u32, other: u32, base: Option<u32>) -> MergeBase {
    MergeBase { one: id(one), other: id(other), base: base.map(id) }
}

fn bases() -> Vec<MergeBase> {
    let mut all = Vec::new();
    for (one, other) in [(A, B), (A, C), (B, C)] {
        all.push(base(one, other, Some(MAIN)));
        all.push(base(other, one, Some(MAIN)));
    }
    for tip in [A, B, C, MERGE] {
        all.push(base(MAIN, tip, Some(MAIN)));
        all.push(base(tip, MAIN, Some(MAIN)));
    }
    for input in [A, C] {
        all.push(base(input, MERGE, Some(input)));
        all.push(base(MERGE, input, Some(input)));
    }
    all.push(base(B, MERGE, Some(MAIN)));
    all.push(base(MERGE, B, Some(MAIN)));
    all
}

fn graph(inputs: Vec<Input<FullName>>) -> Graph {
    Graph {
        scope: vec![id(MAIN), id(A), id(B), id(C), id(MERGE)],
        merges: vec![Merge {
            id: id(MERGE),
            definition: Definition { inputs },
            descendants: vec![id(MERGE)],
        }],
        bases: bases(),
        bounded_history: None,
    }
}

fn candidates() -> Vec<Candidate<FullName>> {
    [("A", A), ("B", B), ("C", C), ("main", MAIN)]
        .iter()
        .map(|(text, number)| Candidate { name: branch(text), commit_id: Some(id(*number)) })
        .collect()
}

fn site(head: u32, selected: u32) -> Site {
    Site {
        has_worktree: true,
        index_in_conflict: false,
        head_commit_id: id(head),
        selected_commit_id: id(selected),
    }
}

fn text(bytes: Vec<u8>) -> String {
    String::from_utf8(bytes).unwrap()
}

/// Merges the inputs of a definition; `conflicts` are those that cannot be merged.
fn merged(definition: Definition, commits: &Vec<Commit>, conflicts: &[u32]) -> Merging {
    let mut merging = Merging::new(definition);
    while let Some(request) = merging.advance(commits).unwrap() {
        let clean = !conflicts.iter().any(|number| id(*number) == request.theirs);
        merging.decide(if clean { Some(request.theirs) } else { None });
    }
    merging
}

fn pick(number: u32, parent: PlanParent) -> PlanStep<Vec<u8>, Vec<ObjectId>> {
    PlanStep { parent, commit: PlanCommit::Pick(id(number)), squash: Vec::new() }
}

#[test]
fn malformed_recipes_are_rejected_and_pin_titles_do_not_expose_ref_names() {
    let mut definition = Definition { inputs: vec![follow("A", A), follow("B", B)] };
    definition.inputs[1].source = InputSource::Reference(name("refs/worktree/tix/pins/abcd"));
    definition.inputs[1].muted = true;
    assert_eq!(text(definition.title()), "✔️ A 💥 📌");
    let change = change_id(B);
    definition.inputs[1].source = InputSource::Change(change);
    assert_eq!(
        text(definition.title()),
        format!("✔️ A 💥 {}", text(change.to_reverse_hex_with_len(7)))
    );
    assert_eq!(text(change.to_reverse_hex_with_len(7)), "zzzzzzz");
    definition.inputs[0].source = InputSource::Change(change);
    let headers = definition.store(Vec::new());
    assert_eq!(
        Definition::from_headers(&headers),
        Err(MergeError::DuplicateInput),
        "two versions of one change cannot become duplicate subscriptions"
    );
    let recipe = |value: String| {
        vec![Header { name: HEADER.as_bytes().to_vec(), value: value.into_bytes() }]
    };
    let hex = text(id(A).to_hex());
    let read = |value: String| Definition::from_headers(&recipe(value)).unwrap_err();
    assert_eq!(
        read(format!("1 {hex} included change-id invalid")),
        MergeError::InvalidChangeId,
        "invalid change IDs cannot drive a rewrite"
    );
    assert_eq!(read("invalid".into()), MergeError::UnsupportedVersion);
    assert_eq!(read("1".into()), MergeError::NoCommitId);
    assert_eq!(read("1 zz included refs/heads/A".into()), MergeError::InvalidCommitId);
    assert_eq!(read(format!("1 {hex} quiet refs/heads/A")), MergeError::InvalidMergeState);
    assert_eq!(read(format!("1 {hex} included")), MergeError::NoIdentity);
    assert_eq!(read(format!("1 {hex} included refs/heads/..")), MergeError::InvalidReference);
    assert_eq!(
        read(format!("1 {hex} included refs/notes/A")),
        MergeError::UnsupportedReference
    );
}

#[test]
fn definitions_are_stored_in_headers_and_read_back() {
    let mut inputs = vec![follow("A", A), tracked_change(9, C)];
    inputs[1].muted = true;
    let definition = Definition { inputs };
    let other = Header { name: b"gpgsig".to_vec(), value: b"x".to_vec() };
    let stale = Header { name: HEADER.as_bytes().to_vec(), value: b"old".to_vec() };
    let headers = definition.store(vec![stale, other]);
    assert_eq!(headers.len(), 3);
    assert_eq!(headers[0].name, b"gpgsig");
    assert_eq!(
        text(headers[1].value.clone()),
        format!("1 {} included refs/heads/A", text(id(A).to_hex()))
    );
    assert_eq!(
        text(headers[2].value.clone()),
        format!("1 {} muted change-id {}", text(id(C).to_hex()), text(change_id(9).to_reverse_hex()))
    );
    assert!(is_auto_merge(&headers));
    assert_eq!(Definition::from_headers(&headers), Ok(Some(definition)));
    assert!(!is_auto_merge(&Vec::new()));
    assert_eq!(Definition::from_headers(&Vec::new()), Ok(None));
}

#[test]
fn references_that_can_be_followed() {
    assert!(allowed_ref(b"refs/heads/main"));
    assert!(allowed_ref(b"refs/remotes/origin/main"));
    assert!(allowed_ref(b"refs/tags/v1"));
    assert!(allowed_ref(b"refs/worktree/tix/pins/x"));
    assert!(!allowed_ref(b"refs/notes/x"));
    assert!(!allowed_ref(b"HEAD"));
    assert!(InputSource::Reference(name("refs/tags/v1")).is_static());
    assert!(InputSource::Reference(name("refs/remotes/origin/C")).is_static());
    assert!(!InputSource::Reference(branch("C")).is_static());
    assert!(!InputSource::<FullName>::Change(change_id(1)).is_static());
    let inputs = vec![follow("A", A), tracked_change(C, C)];
    assert_eq!(find_input(&inputs, &InputSource::Change(change_id(C))), Some(1));
    assert_eq!(find_input(&inputs, &InputSource::Change(change_id(B))), None);
}

#[test]
fn change_lookup_is_bounded_and_retains_ambiguous_or_missing_inputs() {
    let mut snapshot = snapshot();
    snapshot.commits.push(version(OTHER, C, &[MAIN]));
    let input = tracked_change(C, C);
    for (candidates, expected, ambiguous) in [
        (None, C, false),
        (Some(vec![id(OTHER)]), OTHER, false),
        (Some(vec![id(C), id(OTHER)]), C, true),
        (Some(vec![]), C, false),
    ] {
        let mut refs = References::new(candidates);
        for _ in 0..2 {
            assert_eq!(
                refs.resolve_input(&snapshot, &input, &[], None),
                Ok(Some(id(expected))),
                "bounded unique matches relocate; ambiguous lookups retain the selected version"
            );
        }
        let notice = refs.notice();
        assert_eq!(notice.is_some(), ambiguous, "only ambiguity needs an explanation");
        if let Some(notice) = notice {
            assert!(text(notice).contains("ambiguous"));
        }
    }
    let inputs = vec![follow("A", A), tracked_change(C, C)];
    snapshot.commits.push(merge_commit(MERGE, vec![follow("A", A), tracked_change(C, C)]));
    let mut graph = graph(inputs);
    graph.bounded_history = Some(vec![id(A), id(OTHER)]);
    graph.bases.push(base(MERGE, OTHER, Some(MAIN)));
    graph.bases.push(base(OTHER, MERGE, Some(MAIN)));
    let preparation = prepare(&snapshot, &graph, vec![id(C)], Some(id(MERGE)), None).unwrap();
    assert!(
        preparation.affected.contains(&id(MERGE)),
        "an exact edit outside the lookup projection still updates its merge"
    );
    assert!(
        preparation.optional.contains(&id(C)),
        "the exact input is replayed before merging, regardless of lookup candidates"
    );
}

#[test]
fn todo_inputs_keep_explicit_existing_ref_destinations() {
    let snapshot = with_merge(vec![follow("A", A), follow("C", C)]);
    let resolved = |destination: RefDestination| {
        let references = vec![PlanRef { name: branch("C"), source: id(C), destination }];
        let produced = Vec::new();
        resolve(
            &snapshot,
            &branch("C"),
            &[],
            Some(&Planned { references: &references, produced: &produced }),
        )
    };
    assert_eq!(
        resolved(RefDestination::Step(0)),
        Err(MergeError::UnproducedStep),
        "an unproduced input cannot silently disappear"
    );
    assert_eq!(
        resolved(RefDestination::Delete),
        Ok(None),
        "only explicit deletion removes the input"
    );
    assert_eq!(resolved(RefDestination::Existing(id(A))), Ok(Some(id(A))));
    let plan = Plan {
        base: id(MAIN),
        scope: vec![id(A), id(MERGE)],
        steps: vec![pick(A, PlanParent::Existing(id(C))), pick(MERGE, PlanParent::Step(0))],
        checkout: Some(PlanCheckout { target: PlanParent::Step(1), reference: None }),
        expected_refs: vec![
            PlanRef {
                name: branch("A"),
                source: id(A),
                destination: RefDestination::Follow { tip: false },
            },
            PlanRef {
                name: branch("C"),
                source: id(C),
                destination: RefDestination::Existing(id(A)),
            },
        ],
    };
    let ordered = order_plan(&snapshot, plan, References::new(None)).unwrap();
    assert_eq!(ordered.plan.steps[0].commit, PlanCommit::Pick(id(A)));
    let references = ordered.plan.expected_refs;
    let produced = vec![id(OTHER)];
    let definition = Definition { inputs: vec![follow("A", A), follow("C", C)] };
    let mut refs = ordered.refs;
    let live = live_inputs(
        &snapshot,
        &Definition { inputs: vec![definition.inputs[1].copy()] },
        &mut refs,
        &[Rewrite { old_id: id(A), new_id: Some(id(OTHER)) }],
        Some(&Planned { references: &references, produced: &produced }),
    )
    .unwrap();
    assert_eq!(live.inputs[0].commit_id, id(A), "C stays at its explicit old object");
}

#[test]
fn todos_resolve_inputs_from_later_fork_sections() {
    let snapshot = with_merge(vec![follow("A", A), follow("C", C)]);
    let onto = PlanParent::Existing(id(BASE));
    let plan = Plan {
        base: id(MAIN),
        scope: vec![id(A), id(C), id(MERGE)],
        steps: vec![pick(A, onto), pick(MERGE, PlanParent::Step(0)), pick(C, onto)],
        checkout: Some(PlanCheckout { target: PlanParent::Step(1), reference: None }),
        expected_refs: vec![
            PlanRef { name: branch("A"), source: id(A), destination: RefDestination::Step(0) },
            PlanRef { name: branch("C"), source: id(C), destination: RefDestination::Step(2) },
        ],
    };
    let ordered = order_plan(&snapshot, plan, References::new(None)).unwrap();
    for (step, number) in ordered.plan.steps.iter().zip([A, C, MERGE]) {
        assert_eq!(
            step.commit,
            PlanCommit::Pick(id(number)),
            "the merge is rebuilt behind its last input"
        );
    }
    assert_eq!(ordered.plan.steps[2].parent, PlanParent::Step(0));
    assert_eq!(ordered.plan.checkout.unwrap().target, PlanParent::Step(2));
    assert_eq!(ordered.plan.expected_refs[1].destination, RefDestination::Step(1));
    let produced = vec![id(OTHER), id(B)];
    let mut refs = ordered.refs;
    let live = live_inputs(
        &snapshot,
        &Definition { inputs: vec![follow("A", A), follow("C", C)] },
        &mut refs,
        &[],
        Some(&Planned { references: &ordered.plan.expected_refs, produced: &produced }),
    )
    .unwrap();
    assert_eq!(live.inputs[0].commit_id, id(OTHER));
    assert_eq!(live.inputs[1].commit_id, id(B));
}

#[test]
fn plans_that_depend_on_themselves_are_rejected() {
    let snapshot = with_merge(vec![follow("A", A), follow("C", C)]);
    let plan = Plan {
        base: id(MAIN),
        scope: vec![id(C), id(MERGE)],
        steps: vec![pick(MERGE, PlanParent::Existing(id(MAIN))), pick(C, PlanParent::Step(0))],
        checkout: None,
        expected_refs: vec![PlanRef {
            name: branch("C"),
            source: id(C),
            destination: RefDestination::Step(1),
        }],
    };
    assert_eq!(
        order_plan(&snapshot, plan, References::new(None)).map(|_| ()),
        Err(MergeError::CyclicPlan)
    );
}

#[test]
fn mutes_the_entire_conflicting_input_and_continues_with_later_inputs() {
    let snapshot = snapshot();
    let definition =
        Definition { inputs: vec![follow("A", A), follow("B", B), follow("C", C)] };
    let live =
        live_inputs(&snapshot, &definition, &mut References::new(None), &[], None).unwrap();
    assert_eq!(rebuilt(&live), Rebuilt::Commit);
    let merging = merged(live, &snapshot.commits, &[B]);
    assert_eq!(merging.accumulated, Some(id(C)), "later inputs still contribute");
    let definition = Definition { inputs: merging.inputs };
    assert_eq!(
        definition.inputs.iter().map(|input| input.muted).collect::<Vec<_>>(),
        [false, true, false]
    );
    assert_eq!(
        rebuilt_parents(&definition),
        vec![id(A), id(B), id(C)],
        "muting never removes a parent"
    );
    assert_eq!(text(rebuilt_message(&definition, b"")), "✔️ A 💥 B ✔️ C\n");
    assert_eq!(
        text(rebuilt_message(&definition, "✔️ A\n\nkept\n".as_bytes())),
        "✔️ A 💥 B ✔️ C\n\nkept\n",
        "the body of the message stays"
    );
}

#[test]
fn converged_refs_keep_their_subscriptions_with_one_git_parent() {
    let mut snapshot = snapshot();
    snapshot.references[2] = at("B", A);
    let definition = Definition { inputs: vec![follow("A", A), follow("B", B)] };
    let live =
        live_inputs(&snapshot, &definition, &mut References::new(None), &[], None).unwrap();
    assert_eq!(rebuilt(&live), Rebuilt::Commit);
    assert_eq!(live.inputs.len(), 2);
    assert_eq!(rebuilt_parents(&live), vec![id(A)]);
}

#[test]
fn merges_that_are_made_again_later_keep_their_tree_and_title() {
    let mut snapshot = snapshot();
    snapshot.references[1] = at("A", OTHER);
    snapshot.commits.push(commit(OTHER, &[A]));
    let muted = Input { muted: true, ..follow("C", C) };
    let recipe = Definition { inputs: vec![follow("A", A), muted] };
    let headers = || recipe.store(vec![Header { name: b"kept".to_vec(), value: b"1".to_vec() }]);
    let live = || {
        let mut refs = References::new(None);
        live_inputs(&snapshot, &recipe, &mut refs, &[], None).unwrap()
    };

    let later = rebuilt_commit(live(), None, None, b"old title\n\nbody\n", headers());
    assert_eq!(later.tree, None, "the tree stays");
    assert_eq!(later.message, b"old title\n\nbody\n");
    assert_eq!(later.parents, vec![id(OTHER), id(C)]);
    assert_eq!(later.headers[0].name, b"kept");
    let inputs = Definition::from_headers(&later.headers).unwrap().unwrap().inputs;
    assert_eq!(inputs[0].commit_id, id(OTHER), "the recipe follows its references");
    assert!(!inputs[0].muted && inputs[1].muted, "no input is muted or heard anew");

    let merging = merged(live(), &snapshot.commits, &[C]);
    let at_once =
        rebuilt_commit(live(), Some(merging), Some(id(MAIN)), b"old title\n\nbody\n", headers());
    assert_eq!(at_once.tree, Some(TreeSource::Commit(id(OTHER))));
    assert_eq!(
        text(at_once.message),
        "\u{2714}\u{fe0f} A \u{1f4a5} C\n\nbody\n"
    );
    assert_eq!(at_once.parents, vec![id(OTHER), id(C)]);
    let inputs = Definition::from_headers(&at_once.headers).unwrap().unwrap().inputs;
    assert!(!inputs[0].muted && inputs[1].muted);
}

#[test]
fn affected_merges_come_behind_their_inputs() {
    let snapshot = with_merge(vec![follow("A", A), follow("C", C)]);
    let graph = graph(vec![follow("A", A), follow("C", C)]);
    let mut refs = References::new(None);
    let ids = [id(MERGE), id(C), id(A)];
    let found = ordered(&snapshot, &graph, &ids, &mut refs).unwrap();
    assert_eq!(found.len(), 3);
    assert_eq!(found[2], id(MERGE), "a merge comes behind what its inputs stand for");
}

#[test]
fn common_base_is_used_when_every_input_is_pending() {
    let mut snapshot = snapshot();
    snapshot.commits[1].pending = true;
    snapshot.commits[2].pending = true;
    let definition = Definition { inputs: vec![follow("A", A), follow("B", B)] };
    let merging = merged(definition, &snapshot.commits, &[]);
    assert_eq!(merging.accumulated, None);
    let definition = Definition { inputs: merging.inputs };
    assert!(definition.inputs.iter().all(|input| input.muted));
    assert_eq!(text(rebuilt_message(&definition, b"")), "💥 A 💥 B\n");
    assert_eq!(
        tree_source(merging.accumulated, Some(id(MAIN))),
        TreeSource::Commit(id(MAIN))
    );
    assert_eq!(tree_source(Some(id(A)), Some(id(MAIN))), TreeSource::Commit(id(A)));
    assert_eq!(tree_source(None, None), TreeSource::Empty);
}

#[test]
fn missing_refs_are_pruned_and_an_empty_subscription_set_keeps_the_previous_result() {
    let mut snapshot = snapshot();
    let definition = Definition { inputs: vec![follow("A", A), follow("C", C)] };
    snapshot.references.pop();
    let live =
        live_inputs(&snapshot, &definition, &mut References::new(None), &[], None).unwrap();
    assert_eq!(rebuilt(&live), Rebuilt::Collapse(id(A)));
    snapshot.references.clear();
    let live =
        live_inputs(&snapshot, &definition, &mut References::new(None), &[], None).unwrap();
    assert_eq!(rebuilt(&live), Rebuilt::Empty);
    let kept = Rebuild::Complete { moved_references: false, notice: None };
    assert!(text(operation_notice(b"AutoMerge updated", false, false, &kept)).contains("no inputs"));
    assert_eq!(
        text(operation_notice(b"AutoMerge updated", false, true, &kept)),
        "AutoMerge is already up to date"
    );
    let moved = Rebuild::Complete { moved_references: true, notice: Some(b"dirty".to_vec()) };
    assert_eq!(
        text(operation_notice(b"AutoMerge updated", false, true, &moved)),
        "AutoMerge updated; dirty"
    );
    assert_eq!(
        text(operation_notice(b"AutoMerge updated", false, false, &Rebuild::Stopped)),
        "AutoMerge updated"
    );
}

#[test]
fn unnamed_inputs_survive_creation_and_rewrites_without_tracking_refs() {
    let mut snapshot = snapshot();
    snapshot.references = vec![at("main", MAIN), at("B", B)];
    let named = vec![
        Candidate { name: branch("main"), commit_id: Some(id(MAIN)) },
        Candidate { name: branch("B"), commit_id: Some(id(B)) },
    ];
    let outcome =
        change_merge(&snapshot, &named, &bases(), site(A, A), &Change::AddCommit(id(C))).unwrap();
    let definition = match outcome {
        Outcome::Changed { definition, created, notice } => {
            assert!(created);
            assert_eq!(text(notice), "AutoMerge updated");
            definition
        },
        Outcome::Unchanged(_) => panic!("the unnamed inputs form an AutoMerge"),
    };
    assert_eq!(
        definition.inputs,
        vec![tracked_change(A, A), tracked_change(C, C)],
        "both inputs use change identities when no source ref exists"
    );
    snapshot.commits.push(version(OTHER, C, &[MAIN]));
    let mut refs = References::new(None);
    refs.rewritten(id(C), Some(id(OTHER)));
    let live = live_inputs(
        &snapshot,
        &definition,
        &mut refs,
        &[Rewrite { old_id: id(C), new_id: Some(id(OTHER)) }],
        None,
    )
    .unwrap();
    assert_eq!(live.inputs[1].commit_id, id(OTHER));
    snapshot.commits.push(merge_commit(MERGE, live.inputs));
    let outcome = change_merge(
        &snapshot,
        &named,
        &bases(),
        site(MERGE, MERGE),
        &Change::Remove(InputSource::Change(change_id(C))),
    )
    .unwrap();
    match outcome {
        Outcome::Changed { definition, created, notice } => {
            assert!(!created);
            assert_eq!(text(notice), "input removed from AutoMerge");
            assert_eq!(
                rebuilt(&definition),
                Rebuilt::Collapse(id(A)),
                "removing a change input collapses to the remaining input"
            );
        },
        Outcome::Unchanged(_) => panic!("the input is removed"),
    }
}

#[test]
fn selected_commits_prefer_unambiguous_local_refs_and_otherwise_use_change_ids() {
    let mut snapshot = snapshot();
    let symbolic = name("refs/worktree/tix/pins/symbolic");
    let pin = name("refs/worktree/tix/pins/direct");
    let mut found = candidates();
    snapshot
        .references
        .push(Reference { name: symbolic.clone(), state: State::Symbolic(branch("C")) });
    found.push(Candidate { name: symbolic, commit_id: Some(id(C)) });
    let selected = |number: u32| Selected {
        commit_id: id(number),
        change: change_id(number),
        head_commit_id: id(A),
        head_is_merge: false,
    };
    let selections = additions(&snapshot.references, &found, &bases(), selected(C)).unwrap();
    assert_eq!(selections.len(), 1, "a symbolic pin and its branch identify one source");
    assert_eq!(selections[0].change, Change::Add(branch("C")));
    assert_eq!(selections[0].merge_commit_id, id(A), "off-HEAD selection targets HEAD");
    for other in [pin.clone(), branch("alias")] {
        snapshot.references.push(Reference { name: other.clone(), state: State::Object(id(C)) });
        found.push(Candidate { name: other, commit_id: Some(id(C)) });
    }
    let selections = additions(&snapshot.references, &found, &bases(), selected(C)).unwrap();
    let changes: Vec<_> = selections.into_iter().map(|selection| selection.change).collect();
    assert_eq!(
        changes,
        vec![Change::Add(branch("C")), Change::Add(branch("alias")), Change::Add(pin)],
        "multiple sources use the picker with local branches before pins"
    );
    let mut references = vec![at("main", MAIN), at("A", A), at("B", B)];
    let mut remote = candidates();
    remote.retain(|candidate| !candidate.name.same(&branch("C")));
    for other in ["refs/remotes/origin/C", "refs/tags/C"] {
        references.push(Reference { name: name(other), state: State::Object(id(C)) });
        remote.push(Candidate { name: name(other), commit_id: Some(id(C)) });
    }
    let selections = additions(&references, &remote, &bases(), selected(C)).unwrap();
    assert_eq!(selections.len(), 1);
    assert_eq!(
        selections[0].change,
        Change::AddCommit(id(C)),
        "remote refs do not replace change tracking"
    );
    assert_eq!(
        additions(&references, &remote, &bases(), selected(MAIN)),
        Err(MergeError::AlreadyAncestor),
        "ancestors are rejected before showing a picker"
    );
    assert!(
        additions(&references, &remote, &bases(), selected(A)).unwrap().len() > 1,
        "HEAD keeps the general ref picker"
    );
    references.push(at("alias", A));
    remote.push(Candidate { name: branch("alias"), commit_id: Some(id(A)) });
    let crowded = Snapshot { references, ..snapshot };
    let outcome =
        change_merge(&crowded, &remote, &bases(), site(A, A), &Change::AddCommit(id(C))).unwrap();
    match outcome {
        Outcome::Changed { definition, .. } => {
            assert_eq!(definition.inputs[0].source, InputSource::Change(change_id(A)));
            assert_eq!(definition.inputs[1].source, InputSource::Change(change_id(C)));
        },
        Outcome::Unchanged(_) => panic!("the selected commit creates an AutoMerge"),
    }
}

#[test]
fn change_inputs_follow_the_rewritten_commit_without_following_inserted_children() {
    let mut snapshot = snapshot();
    snapshot.commits.push(version(BASE, C, &[MAIN]));
    snapshot.commits.push(commit(OTHER, &[BASE]));
    let definition = Definition { inputs: vec![follow("A", A), tracked_change(C, C)] };
    let after = |refs: &mut References, rewritten: &[Rewrite]| {
        live_inputs(&snapshot, &definition, refs, rewritten, None).unwrap()
    };
    let child = Rewrite { old_id: id(C), new_id: Some(id(OTHER)) };
    let mut inserted = References::new(None);
    inserted.rewritten(id(C), Some(id(C)));
    let live = after(&mut inserted, &[child]);
    assert_eq!(live.inputs[1].commit_id, id(C), "inserting preserves the logical input");
    let mut split = References::new(None);
    split.rewritten(id(C), Some(id(BASE)));
    let live = after(&mut split, &[child]);
    assert_eq!(live.inputs[1].commit_id, id(BASE), "splitting follows the lower part");
    assert_eq!(live.inputs[1].source, InputSource::Change(change_id(C)));
    let mut removed = References::new(None);
    removed.rewritten(id(C), None);
    let live = after(&mut removed, &[Rewrite { old_id: id(C), new_id: None }]);
    assert_eq!(
        rebuilt(&live),
        Rebuilt::Collapse(id(A)),
        "removing the change removes its subscription and collapses the merge"
    );
}

#[test]
fn todos_place_change_inputs_before_merging_and_remove_dropped_or_squashed_identities() {
    let mut snapshot = with_merge(vec![follow("A", A), tracked_change(C, C)]);
    snapshot.commits.push(commit(BASE, &[MAIN]));
    snapshot.commits.push(version(OTHER, C, &[BASE]));
    let main = PlanParent::Existing(id(MAIN));
    let onto = PlanParent::Existing(id(BASE));
    for action in ["pick", "drop", "squash", "copy"] {
        let mut steps = vec![pick(MERGE, main)];
        let mut scope = vec![id(MERGE)];
        if action != "copy" {
            scope.push(id(C));
        }
        if action == "squash" {
            scope.push(id(A));
        }
        match action {
            "pick" => steps.push(pick(C, onto)),
            "copy" => steps.push(PlanStep {
                parent: onto,
                commit: PlanCommit::Copy(id(C)),
                squash: Vec::new(),
            }),
            "squash" => steps.push(PlanStep {
                parent: main,
                commit: PlanCommit::Pick(id(A)),
                squash: vec![id(C)],
            }),
            _ => {},
        }
        let plan = Plan {
            base: id(MAIN),
            scope,
            steps,
            checkout: Some(PlanCheckout { target: PlanParent::Step(0), reference: None }),
            expected_refs: Vec::new(),
        };
        let ordered = order_plan(&snapshot, plan, References::new(None)).unwrap();
        let position =
            ordered.plan.steps.iter().position(|step| step.commit == PlanCommit::Pick(id(MERGE)));
        let placed = if action == "pick" { Some(1) } else { None };
        if placed.is_some() {
            assert_eq!(position, placed, "the pick comes before the merge");
        }
        let produced = vec![id(OTHER)];
        let mut refs = ordered.refs;
        let live = live_inputs(
            &snapshot,
            &Definition { inputs: vec![tracked_change(C, C)] },
            &mut refs,
            &[],
            Some(&Planned { references: &ordered.plan.expected_refs, produced: &produced }),
        )
        .unwrap();
        match action {
            "pick" => assert_eq!(live.inputs[0].commit_id, id(OTHER)),
            "copy" => assert_eq!(live.inputs[0].commit_id, id(C)),
            _ => assert!(live.inputs.is_empty(), "{action} removes the identity"),
        }
    }
}

#[test]
fn input_pins_survive_checkout_and_removal_choices_disambiguate_memberships() {
    let pin = name("refs/worktree/tix/pins/kept");
    let pinned = || Input {
        source: InputSource::Reference(pin.clone()),
        commit_id: id(A),
        muted: false,
    };
    let mut snapshot = with_merge(vec![pinned(), follow("C", C)]);
    snapshot.references.push(Reference { name: pin.clone(), state: State::Object(id(A)) });
    let mut graph = graph(vec![pinned(), follow("C", C)]);
    assert_eq!(input_pins(&graph.merges), vec![pin.clone()]);
    assert_eq!(
        text(rebuilt_message(&graph.merges[0].definition, b"")),
        "✔️ 📌 ✔️ C\n"
    );
    let worktree = Worktree {
        head: State::Object(id(MERGE)),
        head_id: Some(id(MERGE)),
        pins: vec![Pin { name: pin.clone(), target: Target::Object(id(A)), id: id(A) }],
        head_pin: State::Missing,
        taken: vec![pin.clone()],
        elsewhere: Vec::new(),
        followed: input_pins(&graph.merges),
    };
    let request = Request {
        selected: id(A),
        reference: None,
        departure: Some(id(MERGE)),
        contained: false,
    };
    let (_, journey) = plan_move(&worktree, &request).unwrap().unwrap();
    assert_eq!(journey.checkout, Checkout::Detach(id(A)));
    assert_eq!(journey.destination, None, "checkout cannot consume a subscribed pin");
    let unsubscribed = Worktree { followed: Vec::new(), ..worktree };
    let (_, journey) = plan_move(&unsubscribed, &request).unwrap().unwrap();
    assert_eq!(journey.destination.unwrap().name, pin);
    let all = removals(&snapshot, &graph, id(MERGE), true).unwrap();
    assert_eq!(all.len(), 2);
    assert!(all.iter().all(|selection| selection.merge_commit_id == id(MERGE)));
    let one = removals(&snapshot, &graph, id(C), false).unwrap();
    assert_eq!(one.len(), 1);
    assert_eq!(one[0].change, Change::Remove(InputSource::Reference(branch("C"))));
    snapshot.commits.push(merge_commit(OTHER, vec![follow("B", B), follow("C", C)]));
    graph.scope.push(id(OTHER));
    graph.merges.push(Merge {
        id: id(OTHER),
        definition: Definition { inputs: vec![follow("B", B), follow("C", C)] },
        descendants: vec![id(OTHER)],
    });
    let both = removals(&snapshot, &graph, id(C), false).unwrap();
    assert_eq!(both.len(), 2, "each membership is a choice of its own");
    assert_ne!(both[0].label, both[1].label);
}

#[test]
fn generated_content_and_self_subscriptions_are_rejected() {
    let snapshot = with_merge(vec![follow("A", A), follow("C", C)]);
    let merge = &snapshot.commits[4];
    assert_eq!(ensure_editable(&merge.headers), Err(MergeError::Generated));
    assert_eq!(ensure_editable(&snapshot.commits[1].headers), Ok(()));

    let head = HeadCommit {
        tree: id(BASE),
        pending: false,
        pending_below: false,
        review: false,
        generated: is_auto_merge(&merge.headers),
    };
    let index = Index { conflicted: false, tree: id(OTHER), only: false };
    assert_eq!(select_tree(head, Kind::Amend, None, index), Err(HeadError::Generated));
    assert_eq!(
        gix_tix::head::perform(head, Kind::Amend, None, id(OTHER), false),
        Err(HeadError::Generated)
    );

    let described = Described {
        author: Signature {
            actor: Actor { name: b"author".to_vec(), email: b"author@example.com".to_vec() },
            time: Time { seconds: 0, offset: 0 },
        },
        message: "\u{2714}\u{fe0f} A \u{2714}\u{fe0f} C\n".as_bytes().to_vec(),
    };
    assert_eq!(check_reword(&merge.headers), Err(RewordError::Generated));
    assert_eq!(
        revise_message(b"replacement title", None, described, &merge.headers),
        Err(RewordError::Generated)
    );

    let head_pin = Pin {
        name: name("refs/worktree/tix/pins/HEAD"),
        target: Target::Symbolic(branch("A")),
        id: id(A),
    };
    let worktree = Worktree {
        head: State::Object(id(MERGE)),
        head_id: Some(id(MERGE)),
        head_pin: head_pin.target.state(),
        taken: vec![head_pin.name.clone()],
        pins: vec![head_pin],
        elsewhere: Vec::new(),
        followed: Vec::new(),
    };
    let attach = |headers| {
        plan_attach(&worktree, &State::Object(id(A)), true, headers, &snapshot.references)
            .map(|_| ())
    };
    assert_eq!(
        attach(&merge.headers),
        Err(TravelError::TracksItself),
        "the remembered input cannot be attached to its own merge"
    );
    let unrelated = merge_commit(OTHER, vec![follow("B", B), follow("C", C)]);
    assert_eq!(attach(&unrelated.headers), Ok(()));

    let mut pointed = with_merge(vec![follow("A", A), follow("C", C)]);
    pointed.references[1] = at("A", MERGE);
    assert_eq!(
        prepare(
            &pointed,
            &graph(vec![follow("A", A), follow("C", C)]),
            vec![id(MERGE)],
            Some(id(MERGE)),
            Some(id(MERGE))
        )
        .map(|_| ()),
        Err(MergeError::TracksItself),
        "external self-subscriptions are rejected too"
    );
    let mut ahead = with_merge(vec![follow("A", A), follow("C", C)]);
    ahead.commits.push(commit(OTHER, &[MERGE]));
    ahead.references.push(at("child", OTHER));
    let mut found = candidates();
    found.push(Candidate { name: branch("child"), commit_id: Some(id(OTHER)) });
    let mut known = bases();
    known.push(base(OTHER, MERGE, Some(MERGE)));
    known.push(base(MERGE, OTHER, Some(MERGE)));
    assert_eq!(
        change_merge(&ahead, &found, &known, site(MERGE, MERGE), &Change::Add(branch("child"))),
        Err(MergeError::TracksItself)
    );
}

#[test]
fn finishing_review_updates_merges_in_both_the_review_and_return_histories() {
    let review = HeadCommit {
        tree: id(MAIN),
        pending: false,
        pending_below: false,
        review: true,
        generated: false,
    };
    let index = Index { conflicted: false, tree: id(MAIN), only: false };
    assert_eq!(
        select_tree(review, Kind::Amend, None, index),
        Ok(gix_tix::head::TreeSource::Worktree),
        "the reviewed patch amends the review commit"
    );
    let amended =
        gix_tix::head::perform(review, Kind::Amend, None, id(A), false).unwrap().unwrap();
    assert_eq!(amended.tree, id(A));

    let mut snapshot = with_merge(vec![follow("A", A), follow("C", C)]);
    snapshot.commits.push(commit(OTHER, &[MAIN]));
    snapshot.commits.push(commit(BASE, &[A]));
    snapshot.references.push(at("review-input", OTHER));
    let finished = [
        Rewrite { old_id: id(OTHER), new_id: Some(id(BASE)) },
        Rewrite { old_id: id(A), new_id: Some(id(BASE)) },
    ];
    let combined = vec![follow("review-input", OTHER), follow("A", A), follow("C", C)];
    for inputs in [vec![follow("A", A), follow("C", C)], combined] {
        let definition = Definition { inputs };
        let mut refs = References::new(None);
        let live = live_inputs(&snapshot, &definition, &mut refs, &finished, None).unwrap();
        assert_eq!(rebuilt(&live), Rebuilt::Commit);
        assert_eq!(live.inputs.len(), definition.inputs.len());
        for input in &live.inputs {
            let name = input.source.reference().expect("this input has a ref");
            assert_eq!(
                resolve(&snapshot, name, &finished, None),
                Ok(Some(input.commit_id)),
                "every subscription follows its final ref after review finishing"
            );
        }
        assert_eq!(rebuilt_parents(&live), vec![id(BASE), id(C)]);
    }
}

#[test]
fn selections_are_revalidated_after_head_or_input_moves() {
    let snapshot = with_merge(vec![follow("A", A), follow("C", C)]);
    let change = |site: Site, change: Change<FullName>| {
        change_merge(&snapshot, &candidates(), &bases(), site, &change).map(|_| ())
    };
    assert_eq!(change(site(A, MERGE), Change::Remerge), Err(MergeError::NotHead));
    assert_eq!(
        change(site(A, A), Change::Add(branch("gone"))),
        Err(MergeError::InputDisappeared)
    );
    assert_eq!(
        change(site(A, A), Change::Add(name("refs/notes/x"))),
        Err(MergeError::UnsupportedReference)
    );
    assert_eq!(
        change(site(MERGE, MERGE), Change::Remove(InputSource::Reference(branch("B")))),
        Err(MergeError::NoLongerInput)
    );
    assert_eq!(change(site(A, A), Change::Remerge), Err(MergeError::NotAMerge));
    assert_eq!(change(site(A, OTHER), Change::AddCommit(id(C))), Err(MergeError::NotHead));
    let bare = Site { has_worktree: false, ..site(A, A) };
    assert_eq!(change(bare, Change::Remerge), Err(MergeError::NoWorktree));
    let conflicting = Site { index_in_conflict: true, ..site(A, A) };
    assert_eq!(change(conflicting, Change::Remerge), Err(MergeError::UnresolvedIndex));
}

#[test]
fn creates_extends_refreshes_and_removes_inputs_without_moving_source_refs() {
    let mut snapshot = snapshot();
    let changed = |snapshot: &Snapshot, site: Site, change: Change<FullName>| match change_merge(
        snapshot,
        &candidates(),
        &bases(),
        site,
        &change,
    ) {
        Ok(Outcome::Changed { definition, created, .. }) => (definition, created),
        other => panic!("{other:?}"),
    };
    let (definition, created) = changed(&snapshot, site(A, A), Change::Add(branch("C")));
    assert!(created);
    assert_eq!(definition.inputs, vec![follow("A", A), follow("C", C)]);
    snapshot.commits.push(merge_commit(MERGE, definition.inputs));
    let (definition, created) = changed(&snapshot, site(MERGE, MERGE), Change::Add(branch("B")));
    assert!(!created);
    assert_eq!(
        definition.inputs,
        vec![follow("A", A), follow("C", C), follow("B", B)]
    );
    let (definition, _) = changed(&snapshot, site(MERGE, MERGE), Change::Remerge);
    assert_eq!(definition.inputs, vec![follow("A", A), follow("C", C)]);
    let unchanged = change_merge(
        &snapshot,
        &candidates(),
        &bases(),
        site(MERGE, MERGE),
        &Change::Add(branch("main")),
    );
    match unchanged {
        Ok(Outcome::Unchanged(notice)) => {
            assert_eq!(text(notice), "main is already an ancestor of HEAD; no input added")
        },
        other => panic!("{other:?}"),
    }
    let (definition, _) = changed(
        &snapshot,
        site(B, MERGE),
        Change::Remove(InputSource::Reference(branch("C"))),
    );
    assert_eq!(definition.inputs, vec![follow("A", A)]);
    assert!(is_eager(true, site(A, A)));
    assert!(is_eager(false, site(MERGE, MERGE)));
    assert!(!is_eager(false, site(B, MERGE)));
}

#[test]
fn a_plan_maintains_offscreen_merges_and_replays_pending_inputs_outside_its_scope() {
    let mut snapshot = with_merge(vec![follow("A", A), follow("C", C)]);
    snapshot.commits[3].pending = true;
    let graph = graph(vec![follow("A", A), follow("C", C)]);
    let plan = Plan {
        base: id(MAIN),
        scope: vec![id(A)],
        steps: vec![pick(A, PlanParent::Existing(id(BASE)))],
        checkout: Some(PlanCheckout { target: PlanParent::Step(0), reference: None }),
        expected_refs: Vec::new(),
    };
    let head = Head { commit_id: Some(id(A)), branch: Some(branch("A")) };
    let expanded = expand_plan(&snapshot, &graph, plan, &head).unwrap();
    assert!(expanded.extra.contains(&id(MERGE)), "the merge follows the picked input");
    assert_eq!(expanded.plan.steps[0].commit, PlanCommit::Pick(id(A)));
    assert!(expanded
        .plan
        .steps
        .iter()
        .any(|step| step.commit == PlanCommit::Pick(id(MERGE))));
    let mut references = Vec::new();
    let captured = vec![PlanRef {
        name: branch("C"),
        source: id(C),
        destination: RefDestination::Follow { tip: true },
    }];
    add_references(&mut references, &captured);
    add_references(&mut references, &captured);
    assert_eq!(references, captured, "each reference is listed once");
}

#[test]
fn editing_an_input_updates_the_merges_that_follow_it() {
    let snapshot = with_merge(vec![follow("A", A), follow("C", C)]);
    let graph = graph(vec![follow("A", A), follow("C", C)]);
    let preparation = prepare(&snapshot, &graph, vec![id(C)], Some(id(MERGE)), None).unwrap();
    assert_eq!(preparation.affected, vec![id(C), id(MERGE)]);
    let preparation = prepare(&snapshot, &graph, vec![id(B)], None, None).unwrap();
    assert_eq!(preparation.affected, vec![id(B)], "B is no input");
    assert!(preparation.queue.is_empty());
}

#[test]
fn commits_are_ordered_behind_what_they_are_made_of() {
    let snapshot = with_merge(vec![follow("A", A), follow("C", C)]);
    let graph = graph(vec![follow("A", A), follow("C", C)]);
    let mut refs = References::new(None);
    assert_eq!(
        ordered(&snapshot, &graph, &[id(MERGE), id(C), id(A), id(MAIN)], &mut refs).unwrap(),
        vec![id(MAIN), id(C), id(A), id(MERGE)]
    );
    assert_eq!(
        checkout_path(&snapshot.commits, &graph.scope, Some(id(C))).unwrap(),
        vec![id(C), id(MAIN)]
    );
    assert_eq!(checkout_path(&snapshot.commits, &graph.scope, None), Ok(Vec::new()));
    assert_eq!(contains(&bases(), id(MAIN), id(A)), Ok(true));
    assert_eq!(contains(&bases(), id(A), id(A)), Ok(true));
    assert_eq!(contains(&bases(), id(A), id(B)), Ok(false));
    assert_eq!(contains(&[], id(A), id(B)), Err(MergeError::UnknownAncestry));
}

#[test]
fn indices_are_ordered_by_their_dependencies() {
    assert_eq!(order(&vec![0, 1, 2], &vec![vec![2], vec![], vec![1]], 3), Some(vec![1, 2, 0]));
    assert_eq!(order(&vec![2, 0], &vec![vec![0], vec![]], 2), Some(vec![0, 2]));
    assert_eq!(order(&vec![0, 1], &vec![vec![1], vec![0]], 2), None);
    assert_eq!(order(&vec![], &vec![], 0), Some(vec![]));
}

#[test]
fn rewrites_and_destinations_are_followed() {
    let chain = [
        Rewrite { old_id: id(A), new_id: Some(id(B)) },
        Rewrite { old_id: id(C), new_id: None },
    ];
    assert_eq!(mapped(id(A), &chain), Some(id(B)));
    assert_eq!(mapped(id(C), &chain), None);
    assert_eq!(mapped(id(MAIN), &chain), Some(id(MAIN)));
    assert_eq!(
        resolve_destination(RefDestination::Step(1), &[id(A), id(B)]),
        Ok(Some(id(B)))
    );
    assert_eq!(
        resolve_destination(RefDestination::Follow { tip: true }, &[]),
        Err(MergeError::UnplacedReference)
    );
    let references = vec![PlanRef {
        name: branch("A"),
        source: id(A),
        destination: RefDestination::Delete,
    }];
    assert_eq!(find_destination(&references, &branch("A")), Some(RefDestination::Delete));
    assert_eq!(find_destination(&references, &branch("B")), None);
    assert_eq!(
        text(join(&vec![b"a".to_vec(), b"b".to_vec(), b"c".to_vec()], b", ")),
        "a, b, c"
    );
    assert_eq!(text(join(&Vec::new(), b", ")), "");
}

#[test]
fn noted_rewrites_win_over_candidates() {
    let mut snapshot = snapshot();
    snapshot.commits.push(version(OTHER, C, &[MAIN]));
    snapshot.commits.push(version(BASE, C, &[MAIN]));
    let input = tracked_change(C, C);
    for candidates in [None, Some(vec![id(OTHER)]), Some(vec![id(C), id(OTHER)])] {
        for new_id in [Some(id(BASE)), Some(id(C)), None] {
            let mut refs = References::new(candidates.clone());
            refs.rewritten(id(C), new_id);
            let others = [Rewrite { old_id: id(C), new_id: Some(id(A)) }];
            assert_eq!(refs.resolve_input(&snapshot, &input, &others, None), Ok(new_id));
        }
    }
}

#[test]
fn branches_are_where_their_snapshot_says() {
    let before = snapshot();
    let mut after = snapshot();
    after.references = vec![at("A", B)];
    for _ in 0..2 {
        assert_eq!(resolve(&before, &branch("A"), &[], None), Ok(Some(id(A))));
        assert_eq!(resolve(&after, &branch("A"), &[], None), Ok(Some(id(B))));
    }
}

#[test]
fn references_are_followed_to_their_commits() {
    let mut snapshot = snapshot();
    snapshot
        .references
        .push(Reference { name: branch("link"), state: State::Symbolic(branch("A")) });
    snapshot
        .references
        .push(Reference { name: branch("loop"), state: State::Symbolic(branch("loop")) });
    snapshot.references.push(at("tag", 100));
    snapshot.references.push(at("tree", 101));
    snapshot.peeled.push((id(100), id(B)));
    assert_eq!(resolve(&snapshot, &branch("link"), &[], None), Ok(Some(id(A))));
    assert_eq!(resolve(&snapshot, &branch("gone"), &[], None), Ok(None));
    assert_eq!(
        resolve(&snapshot, &branch("loop"), &[], None),
        Err(MergeError::CyclicReference)
    );
    assert_eq!(resolve(&snapshot, &branch("tag"), &[], None), Ok(Some(id(B))));
    assert_eq!(resolve(&snapshot, &branch("tree"), &[], None), Err(MergeError::NotACommit));
    assert_eq!(
        follows_reference(&snapshot.references, &branch("link"), &branch("A")),
        Ok(true)
    );
    assert_eq!(
        follows_reference(&snapshot.references, &branch("B"), &branch("A")),
        Ok(false)
    );
}

#[test]
fn choices_list_local_branches_before_remote_ones_and_pins() {
    let found = vec![
        Candidate { name: name("refs/worktree/tix/pins/p"), commit_id: Some(id(A)) },
        Candidate { name: name("refs/remotes/origin/C"), commit_id: Some(id(C)) },
        Candidate { name: branch("C"), commit_id: Some(id(C)) },
        Candidate { name: branch("A"), commit_id: Some(id(A)) },
        Candidate { name: branch("broken"), commit_id: None },
        Candidate { name: name("refs/notes/n"), commit_id: Some(id(A)) },
    ];
    let listed: Vec<_> = choices(&found).into_iter().map(|choice| choice.reference).collect();
    assert_eq!(listed.len(), 4);
    assert_eq!(listed[0], branch("A"));
    assert_eq!(listed[1], branch("C"));
    let references = vec![at("A", A), at("C", C)];
    let found = sources(&references, &found, id(C)).unwrap();
    assert_eq!(found.len(), 1);
    assert_eq!(found[0].reference, branch("C"));
}

#[test]
fn decorations_lead_to_the_tips_of_references() {
    let decorations = vec![
        Decoration { commit_id: id(A), kind: DecorationKind::Local, name: b"A".to_vec() },
        Decoration {
            commit_id: id(B),
            kind: DecorationKind::Remote,
            name: b"origin/B".to_vec(),
        },
    ];
    let pins =
        vec![Candidate { name: name("refs/worktree/tix/pins/p"), commit_id: Some(id(C)) }];
    assert_eq!(decorated_tip(&branch("A"), &decorations, &pins), Some(id(A)));
    assert_eq!(
        decorated_tip(&name("refs/remotes/origin/B"), &decorations, &pins),
        Some(id(B))
    );
    assert_eq!(decorated_tip(&pins[0].name, &decorations, &pins), Some(id(C)));
    assert_eq!(decorated_tip(&branch("B"), &decorations, &pins), None);
}

#[test]
fn change_subscriptions_can_select_another_version_and_remove_one_of_multiple_memberships() {
    let mut snapshot = with_merge(vec![follow("A", A), tracked_change(C, C)]);
    snapshot.references.pop();
    snapshot.commits.push(version(OTHER, C, &[MAIN]));
    let mut named = candidates();
    named.retain(|candidate| !candidate.name.same(&branch("C")));
    let mut known = bases();
    known.push(base(MERGE, OTHER, Some(MAIN)));
    known.push(base(OTHER, MERGE, Some(MAIN)));
    let updated = change_merge(
        &snapshot,
        &named,
        &known,
        site(MERGE, MERGE),
        &Change::AddCommit(id(OTHER)),
    )
    .unwrap();
    let definition = match updated {
        Outcome::Changed { definition, .. } => definition,
        Outcome::Unchanged(_) => panic!("an explicit alternative updates the merge"),
    };
    assert_eq!(
        definition.inputs.len(),
        2,
        "another version replaces the same identity instead of adding it twice"
    );
    assert_eq!(definition.inputs[1].commit_id, id(OTHER));
    assert_eq!(
        text(definition.title()),
        format!("✔️ A ✔️ {}", text(change_id(C).to_reverse_hex_with_len(7)))
    );
    assert_eq!(rebuilt_parents(&definition), vec![id(A), id(OTHER)]);
    let headers = definition.store(Vec::new());
    assert_eq!(
        Definition::from_headers(&headers),
        Ok(Some(definition)),
        "ref and change metadata round-trip together"
    );

    let first = || vec![follow("A", A), tracked_change(C, OTHER)];
    let second = || vec![follow("A", A), follow("B", B), tracked_change(C, OTHER)];
    let mut snapshot = with_merge(first());
    snapshot.references.pop();
    snapshot.commits.push(version(OTHER, C, &[MAIN]));
    snapshot.commits.push(merge_commit(BASE, second()));
    let mut graph = graph(first());
    graph.scope.push(id(OTHER));
    graph.scope.push(id(BASE));
    graph.merges.push(Merge {
        id: id(BASE),
        definition: Definition { inputs: second() },
        descendants: vec![id(BASE)],
    });
    let memberships = removals(&snapshot, &graph, id(OTHER), false).unwrap();
    assert_eq!(
        memberships.len(),
        2,
        "unnamed inputs offer the same membership picker as refs"
    );
    assert!(memberships
        .iter()
        .all(|selection| selection.change == Change::Remove(InputSource::Change(change_id(C)))));
    assert!(memberships.iter().any(|selection| selection.merge_commit_id == id(MERGE)));
    graph.merges.remove(0);
    assert_eq!(
        removals(&snapshot, &graph, id(OTHER), false).unwrap().len(),
        1,
        "only the selected membership is removed"
    );
}

#[test]
fn nested_change_inputs_keep_conflicting_replays_muted_and_retained_by_parents() {
    let mut snapshot = snapshot();
    snapshot.references.pop();
    let mut replayed = version(OTHER, C, &[BASE]);
    replayed.pending = true;
    snapshot.commits.push(replayed);
    let inner = Definition { inputs: vec![follow("A", A), tracked_change(C, C)] };
    let mut refs = References::new(None);
    refs.rewritten(id(C), Some(id(OTHER)));
    let moved = Rewrite { old_id: id(C), new_id: Some(id(OTHER)) };
    let live = live_inputs(&snapshot, &inner, &mut refs, &[moved], None).unwrap();
    let merging = merged(live, &snapshot.commits, &[]);
    assert_eq!(
        merging.accumulated,
        Some(id(A)),
        "the conflicting change contributes no tree"
    );
    let inner = Definition { inputs: merging.inputs };
    assert_eq!(inner.inputs[1].commit_id, id(OTHER));
    assert!(inner.inputs[1].muted, "the conflicting change contributes no tree");
    assert_eq!(
        rebuilt_parents(&inner),
        vec![id(A), id(OTHER)],
        "the unnamed replay is retained by merge parents"
    );

    snapshot.commits.push(version(BASE, MERGE, &[A, OTHER]));
    let outer = Definition { inputs: vec![follow("main", MAIN), tracked_change(MERGE, MERGE)] };
    refs.rewritten(id(MERGE), Some(id(BASE)));
    let rebuilt_inner = Rewrite { old_id: id(MERGE), new_id: Some(id(BASE)) };
    let live =
        live_inputs(&snapshot, &outer, &mut refs, &[moved, rebuilt_inner], None).unwrap();
    let merging = merged(live, &snapshot.commits, &[]);
    let outer = Definition { inputs: merging.inputs };
    assert_eq!(
        outer.inputs[1].commit_id,
        id(BASE),
        "the nested change follows the rebuilt inner merge"
    );
    assert!(
        !outer.inputs[1].muted,
        "a rebuilt inner merge can contribute its clean tree"
    );
}

#[test]
fn attaching_an_advanced_input_maintains_its_merges_and_is_undoable() {
    let head_pin = Pin {
        name: name("refs/worktree/tix/pins/HEAD"),
        target: Target::Symbolic(branch("A")),
        id: id(A),
    };
    let worktree = Worktree {
        head: State::Object(id(OTHER)),
        head_id: Some(id(OTHER)),
        head_pin: head_pin.target.state(),
        taken: vec![head_pin.name.clone()],
        pins: vec![head_pin],
        elsewhere: Vec::new(),
        followed: Vec::new(),
    };
    let attached =
        plan_attach(&worktree, &State::Object(id(A)), true, &Vec::new(), &snapshot().references)
            .unwrap();
    assert_eq!(attached.edits.len(), 2);
    let mut snapshot = with_merge(vec![follow("A", A), follow("C", C)]);
    snapshot.references[1] = at("A", OTHER);
    snapshot.commits.push(commit(OTHER, &[A]));
    let mut graph = graph(vec![follow("A", A), follow("C", C)]);
    graph.scope.push(id(OTHER));
    for (one, other, common) in
        [(OTHER, MERGE, A), (OTHER, A, A), (OTHER, B, MAIN), (OTHER, C, MAIN), (OTHER, MAIN, MAIN)]
    {
        graph.bases.push(base(one, other, Some(common)));
        graph.bases.push(base(other, one, Some(common)));
    }
    let head = Head { commit_id: Some(id(OTHER)), branch: Some(branch("A")) };
    let plan = plan_following(&branch("A"), id(OTHER));
    let expanded = expand_plan(&snapshot, &graph, plan, &head).unwrap();
    assert_eq!(expanded.extra, vec![id(MERGE)]);
    let mut refs = expanded.refs;
    let live = live_inputs(
        &snapshot,
        &Definition { inputs: vec![follow("A", A), follow("C", C)] },
        &mut refs,
        &[],
        Some(&Planned { references: &expanded.plan.expected_refs, produced: &Vec::new() }),
    )
    .unwrap();
    assert_eq!(
        live.inputs[0].commit_id,
        id(OTHER),
        "attachment advances the named input in its dependent merge"
    );
    let mut store = vec![
        (name("HEAD"), State::Object(id(OTHER))),
        (branch("A"), State::Object(id(A))),
    ];
    let changes = attached.journey.changes;
    for change in &changes {
        let entry = store.iter_mut().find(|entry| entry.0 == change.name).unwrap();
        assert_eq!(entry.1, change.before);
        entry.1 = change.after.copy();
    }
    assert_eq!(store[0].1, State::Symbolic(branch("A")));
    assert_eq!(store[1].1, State::Object(id(OTHER)));
    for change in changes.iter().rev() {
        let back = change.reversed();
        let entry = store.iter_mut().find(|entry| entry.0 == back.name).unwrap();
        assert_eq!(entry.1, back.before);
        entry.1 = back.after.copy();
    }
    assert_eq!(store[0].1, State::Object(id(OTHER)), "HEAD is detached again");
    assert_eq!(store[1].1, State::Object(id(A)));
}

#[test]
fn travel_refreshes_external_inputs_and_muted_replays_keep_their_original_patch() {
    let way = vec![Waypoint { id: id(MERGE), pending: false, parent: Some(id(A)) }];
    assert_eq!(
        find_replay_base(&way, id(MERGE), true),
        Ok(Some(id(MERGE))),
        "a merge is made again where nothing is pending"
    );
    assert_eq!(find_replay_base(&way, id(MERGE), false), Ok(None));
    let mut snapshot = with_merge(vec![follow("A", A), follow("C", C)]);
    snapshot.references[1] = at("A", OTHER);
    snapshot.references[3] = at("C", BASE);
    let mut pending = commit(OTHER, &[B]);
    pending.pending = true;
    snapshot.commits.push(pending);
    snapshot.commits.push(commit(BASE, &[C]));
    let definition = Definition { inputs: vec![follow("A", A), follow("C", C)] };
    let live =
        live_inputs(&snapshot, &definition, &mut References::new(None), &[], None).unwrap();
    let merging = merged(live, &snapshot.commits, &[]);
    let definition = Definition { inputs: merging.inputs };
    assert_eq!(definition.inputs[0].commit_id, id(OTHER));
    assert_eq!(definition.inputs[1].commit_id, id(BASE), "travel rereads all named tips");
    assert!(
        definition.inputs[0].muted,
        "a conflicting pending input stays optional during merge travel"
    );
    assert!(!definition.inputs[1].muted, "other inputs still merge");
    assert_eq!(merging.accumulated, Some(id(BASE)));
    let pending = vec![
        Waypoint { id: id(OTHER), pending: true, parent: Some(id(B)) },
        Waypoint { id: id(B), pending: false, parent: None },
    ];
    assert_eq!(
        find_replay_base(&pending, id(OTHER), false),
        Ok(Some(id(OTHER))),
        "direct travel replays the pending commit itself"
    );
}

#[test]
fn editing_an_input_updates_nested_merges_and_undo_restores_the_whole_operation() {
    let inner = || vec![follow("A", A), follow("C", C)];
    let outer = || vec![follow("combined", MERGE), follow("B", B)];
    let mut snapshot = with_merge(inner());
    snapshot.references.push(at("combined", MERGE));
    snapshot.commits.push(merge_commit(OTHER, outer()));
    let mut graph = graph(inner());
    graph.scope.push(id(OTHER));
    graph.merges[0].descendants.push(id(OTHER));
    graph.merges.push(Merge {
        id: id(OTHER),
        definition: Definition { inputs: outer() },
        descendants: vec![id(OTHER)],
    });
    for (one, common) in [(A, A), (B, B), (C, C), (MAIN, MAIN), (MERGE, MERGE)] {
        graph.bases.push(base(one, OTHER, Some(common)));
        graph.bases.push(base(OTHER, one, Some(common)));
    }
    let preparation = prepare(&snapshot, &graph, vec![id(A)], Some(id(MERGE)), None).unwrap();
    assert!(
        preparation.affected.contains(&id(MERGE)),
        "the checked-out merge is maintained"
    );
    assert!(
        preparation.affected.contains(&id(OTHER)),
        "dependent merges elsewhere in the projection are maintained too"
    );
    assert!(preparation.eager.contains(&id(MERGE)));
    assert!(
        !preparation.eager.contains(&id(OTHER)),
        "an off-checkout merge can wait for travel to generate its tree"
    );
    let first_updated = id(BASE);
    snapshot.commits.push(commit(BASE, &[A, C]));
    let rewritten = [Rewrite { old_id: id(MERGE), new_id: Some(first_updated) }];
    let live = live_inputs(
        &snapshot,
        &Definition { inputs: outer() },
        &mut References::new(None),
        &rewritten,
        None,
    )
    .unwrap();
    assert_eq!(live.inputs[0].commit_id, first_updated);
    let moved = |name: FullName, from: u32, to: u32| RefChange {
        name,
        before: State::Object(id(from)),
        after: State::Object(id(to)),
    };
    let changes = vec![
        moved(branch("A"), A, 8),
        moved(branch("combined"), MERGE, BASE),
        moved(name("HEAD"), MERGE, BASE),
        moved(name("refs/worktree/tix/pins/outer"), OTHER, 9),
    ];
    let back = reverse_all(&changes);
    assert_eq!(back.len(), changes.len());
    for change in &changes {
        let undone = back.iter().find(|undone| undone.name == change.name).unwrap();
        assert_eq!(undone.before, change.after);
        assert_eq!(undone.after, change.before);
    }
    assert_eq!(reverse_all(&back), changes, "the edit is redoable");
}
