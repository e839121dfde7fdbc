use gix_tix::auto_merge::definition::Header;
use gix_tix::history::CommitNode;
use gix_tix::ids::{ChangeId, ObjectId};
use gix_tix::names::FullName;
use gix_tix::plan::{ExpectedRef, Plan, PlanCheckout, PlanCommit, PlanParent, PlanStep};
use gix_tix::refs::{Reference, State};
use gix_tix::todo::continuation::prepare_continuation;
use gix_tix::todo::outline::outline;
use gix_tix::todo::parse::{parse, Abbreviation, Lookups};
use gix_tix::todo::record::write_state;
use gix_tix::todo::state::{parse_state, TodoState, STATE_CLOSE, STATE_START};
use gix_tix::todo::write::{
    anchor_title, commit_label, commit_states, prepare, unchanged_notice, write_bottom_up, Label,
    OntoKind, Prepared,
};
use gix_tix::todo::TodoError;

fn id(digit: u128) -> ObjectId {
    ObjectId { high: digit * 0x1111_1111_1111_1111_1111_1111_1111_1111, low: 0 }
}

const BASE: u128 = 1;
const MIDDLE: u128 = 2;
const TIP: u128 = 3;
const SIBLING: u128 = 4;
const ONTO: u128 = 5;

fn short(digit: u128) -> String {
    String::from_utf8(id(digit).to_hex()).unwrap()[..7].to_string()
}

fn name(text: &str) -> FullName {
    FullName::new(text.as_bytes()).unwrap()
}

fn node(digit: u128, parent: u128) -> CommitNode<Vec<ObjectId>> {
    CommitNode { id: id(digit), parents: vec![id(parent)] }
}

fn stack() -> Vec<CommitNode<Vec<ObjectId>>> {
    vec![node(TIP, MIDDLE), node(MIDDLE, BASE)]
}

fn known() -> Vec<CommitNode<Vec<ObjectId>>> {
    let mut all = stack();
    all.push(CommitNode { id: id(BASE), parents: Vec::new() });
    all.push(node(SIBLING, MIDDLE));
    all.push(node(ONTO, BASE));
    all
}

fn label(digit: u128, states: &[u8], info: &str) -> Label<Vec<u8>> {
    Label {
        id: id(digit),
        short: short(digit).into_bytes(),
        states: states.to_vec(),
        info: info.as_bytes().to_vec(),
        change_id: Some(ChangeId { id: id(digit) }),
    }
}

fn labels() -> Vec<Label<Vec<u8>>> {
    let plain = commit_states(b"", &Vec::new(), false);
    let stashed = commit_states(b"", &Vec::new(), true);
    let pending = commit_states(
        b"",
        &vec![Header { name: b"tix-rebase-parent".to_vec(), value: b"parent".to_vec() }],
        false,
    );
    vec![
        label(BASE, &plain, "base"),
        label(MIDDLE, &stashed, "2000-01-02 author middle * _ [markdown] <view> `code` \\ raw"),
        label(TIP, &plain, "2000-01-03 author tip"),
        label(SIBLING, &pending, "pending sibling"),
        label(ONTO, &plain, "updated"),
    ]
}

fn expected(text: &str, digit: u128) -> ExpectedRef<FullName> {
    ExpectedRef {
        name: name(text),
        old: Some(id(digit)),
        target: id(digit),
        new: Some(id(digit)),
        follows_tip: false,
        editable: true,
        placement: None,
    }
}

fn references() -> Vec<ExpectedRef<FullName>> {
    vec![
        expected("refs/heads/main", TIP),
        expected("refs/patches/middle", MIDDLE),
        expected("refs/patches/tip", TIP),
    ]
}

fn prepared(
    onto: u128,
    commits: &Vec<CommitNode<Vec<ObjectId>>>,
    pending: &[u128],
) -> Prepared {
    let pending = pending.iter().map(|digit| id(*digit)).collect();
    let found = outline(commits, id(BASE), id(onto), id(TIP), true, &pending).unwrap();
    let title = if onto == BASE {
        anchor_title(b"base\n", false, false)
    } else {
        anchor_title(
            b"updated * _ [hidden] <base> `raw` \\ base\n\n<!-- agent -->",
            true,
            true,
        )
    };
    prepare(
        &found,
        id(BASE),
        id(onto),
        &Vec::new(),
        OntoKind::UpdatedBase,
        true,
        Some(&name("refs/heads/main")),
        &references(),
        &labels(),
        &title,
    )
    .unwrap()
}

fn lookups() -> Lookups {
    let mut commits: Vec<_> = [BASE, MIDDLE, TIP, SIBLING, ONTO]
        .iter()
        .map(|digit| Abbreviation { text: short(*digit).into_bytes(), id: id(*digit) })
        .collect();
    commits.push(Abbreviation { text: "0".repeat(40).into_bytes(), id: ObjectId::null() });
    Lookups {
        head: id(TIP),
        has_worktree: true,
        stash_prefix: b"refs/worktree/tix/stashes/".to_vec(),
        commits,
        references: vec![
            Reference { name: name("refs/heads/main"), state: State::Object(id(TIP)) },
            Reference { name: name("refs/heads/outside"), state: State::Object(id(BASE)) },
            Reference { name: name("refs/patches/attach"), state: State::Object(id(BASE)) },
            Reference { name: name("refs/patches/middle"), state: State::Object(id(MIDDLE)) },
            Reference { name: name("refs/patches/tip"), state: State::Object(id(TIP)) },
        ],
    }
}

fn plan_of(document: &[u8]) -> Result<Plan<ExpectedRef<FullName>>, TodoError> {
    Ok(parse(document, &known(), Some(&lookups()))?.expect("the test todo was cancelled").plan)
}

fn with_state(prepared: &Prepared, commands: &str) -> Vec<u8> {
    let document = std::str::from_utf8(&prepared.document).expect("generated todo is UTF-8");
    let start = document.find(STATE_START).expect("generated todo has state");
    let end = document[start..].find(STATE_CLOSE).expect("generated state is closed")
        + start
        + STATE_CLOSE.len();
    let mut bottom_up = Vec::new();
    write_bottom_up(&mut bottom_up, commands.as_bytes()).expect("test todo commands are UTF-8");
    let bottom_up = std::str::from_utf8(&bottom_up).expect("rendered test todo is UTF-8");
    format!("{}\n{bottom_up}", &document[start..end]).into_bytes()
}

#[test]
fn unchanged_notices_cover_every_reason_to_apply_or_cancel() {
    for (updated, pending, expected) in [
        (false, false, "Saving unchanged is a no-op"),
        (
            false,
            true,
            "Pending commits on the @ ancestry make saving unchanged apply this todo",
        ),
        (true, false, "Saving unchanged rebases onto the updated base"),
        (
            true,
            true,
            "Saving unchanged rebases onto the updated base and applies pending commits on the @ ancestry",
        ),
    ] {
        let notice = unchanged_notice(updated, pending);
        assert!(notice.contains(expected), "the notice explains its execution mode");
        assert!(
            notice.contains("remove the tix-rebase-state-v2 comment to cancel"),
            "every notice explains explicit cancellation"
        );
    }
}

#[test]
fn markdown_flows_from_tip_to_base_and_uses_repository_abbreviations() {
    let prepared = prepared(BASE, &stack(), &[]);
    assert!(!prepared.apply_unchanged);
    let document = String::from_utf8(prepared.document.clone()).unwrap();
    assert!(
        document.starts_with(unchanged_notice(false, false)),
        "the first line explains that saving unchanged is a no-op"
    );
    assert!(document.contains(STATE_START), "the todo carries its transaction state");
    assert!(document.contains(&format!("# Rebase from `{}`", short(BASE))));
    assert!(document.contains(&format!("fork {} (base) base", short(BASE))));
    let middle = document.find("`pick ").expect("the oldest pick is shown");
    let tip = document.find("`@pick ").expect("HEAD is marked");
    let base = document.find("fork ").expect("the base separator is shown");
    assert!(tip < middle && middle < base, "the todo grows upward from its base");
    let separator = document
        .lines()
        .find(|line| line.contains("fork "))
        .expect("separator is present");
    assert!(separator.starts_with('─') && separator.ends_with('─'));
    let plan = &document[..document.find("# Rebase todo help").expect("help is present")];
    let width = plan
        .lines()
        .filter(|line| line.starts_with('`') || line.starts_with('(') || line.starts_with('─'))
        .map(|line| ratatui::text::Line::raw(line).width())
        .max()
        .expect("the editable plan has lines");
    assert_eq!(
        ratatui::text::Line::raw(separator).width(),
        width,
        "the separator spans the widest plan line"
    );
    let left = separator.chars().take_while(|ch| *ch == '─').count();
    let right = separator.chars().rev().take_while(|ch| *ch == '─').count();
    assert!(left >= 4 && right >= 4 && left.abs_diff(right) <= 1, "the label is centered");
    assert!(
        document.contains("middle * _ [markdown] <view> `code` \\ raw"),
        "display metadata is emitted verbatim"
    );
    assert!(
        document.find("# Rebase todo help").expect("help is present") > tip,
        "complete instructions follow the editable todo"
    );
    assert!(
        document.find(STATE_START).expect("state is present")
            > document.find("# Rebase todo help").expect("help is present"),
        "transaction state follows the complete help"
    );
    assert!(document.ends_with("-->\n"), "the trailing state is a Markdown comment");
    assert!(document.contains("○"), "unsigned commits carry the documented status symbol");
    assert!(document.contains("🎁"), "stashed commits carry a display-only gift marker");
    let mut edited_symbols = document.clone();
    let marker = edited_symbols.find("🎁").expect("the command carries a stash marker");
    edited_symbols.replace_range(marker..marker + "🎁".len(), "changed-state");
    plan_of(edited_symbols.as_bytes()).unwrap();
    let plan = plan_of(&prepared.document).unwrap();
    assert_eq!(
        plan.checkout.as_ref().and_then(|checkout| checkout.reference.as_ref()),
        Some(&name("refs/heads/main")),
        "the generated @ command retains the implicitly attached branch"
    );
}

#[test]
fn enrichment_markers_precede_commit_states_in_initial_and_continuation_todos() {
    let enriched = "🚧📝✔️".as_bytes();
    let mut labels = labels();
    labels[1].states = commit_states(enriched, &Vec::new(), false);
    let found = outline(&stack(), id(BASE), id(BASE), id(TIP), true, &Vec::new()).unwrap();
    let document = prepare(
        &found,
        id(BASE),
        id(BASE),
        &Vec::new(),
        OntoKind::UpdatedBase,
        true,
        None,
        &Vec::new(),
        &labels,
        b"base",
    )
    .unwrap()
    .document;
    let document = String::from_utf8(document).unwrap();
    assert!(
        document.contains(&format!("`pick {}` 🚧📝✔️ ○ 2000-01-02", short(MIDDLE))),
        "commit and tree enrichments precede the unsigned signature state"
    );
    assert!(
        document.contains(
            "`🚧` means the commit is a todo, `📝` it has a note, `✔️` its tree passed checks"
        ),
        "the embedded legend explains enrichment states"
    );

    labels[1].states = commit_states(enriched, &Vec::new(), true);
    labels[1].info = b"middle".to_vec();
    let continued = prepare_continuation(
        &Plan {
            base: id(BASE),
            scope: vec![id(MIDDLE)],
            steps: vec![PlanStep {
                parent: PlanParent::Existing(id(BASE)),
                commit: PlanCommit::Pick(id(MIDDLE)),
                squash: Vec::new(),
            }],
            checkout: None,
            expected_refs: Vec::new(),
        },
        &vec![id(MIDDLE)],
        true,
        &labels,
    )
    .unwrap();
    let document = String::from_utf8(continued.document).unwrap();
    assert!(
        document.contains(&format!("`pick {}` 🚧📝✔️ ○ 🎁 middle", short(MIDDLE))),
        "continuation todos retain enrichment ordering before stash state"
    );
}

#[test]
fn malformed_enrichments_do_not_prevent_todo_generation() {
    let document = String::from_utf8(prepared(BASE, &stack(), &[]).document).unwrap();
    let line = document
        .lines()
        .find(|line| line.contains("2000-01-02 author middle"))
        .expect("the malformed enrichment commit remains in the todo");
    assert!(line.contains(" ○ "), "ordinary commit states remain visible");
    for marker in ["🚧", "📝", "✔️"] {
        assert!(!line.contains(marker), "malformed enrichments are ignored");
    }
}

#[test]
fn signatures_are_shown_as_states() {
    let header = |name: &str, value: &str| Header {
        name: name.as_bytes().to_vec(),
        value: value.as_bytes().to_vec(),
    };
    let states = |headers: Vec<Header<Vec<u8>>>| {
        String::from_utf8(commit_states(b"", &headers, false)).unwrap()
    };
    assert_eq!(states(vec![header("gpgsig", "signature")]), "◐ ");
    assert_eq!(states(vec![header("gpgsig", "")]), "◌ ");
    assert_eq!(states(vec![header("tix-rebase-parent", "x")]), "↻ ○ ");
    assert_eq!(states(Vec::new()), "○ ");
}

#[test]
fn state_round_trips_non_utf8_ref_names_and_controls_cancellation() {
    let name = FullName::new(&[
        b'r', b'e', b'f', b's', b'/', b'h', b'e', b'a', b'd', b's', b'/', 0xff,
    ])
    .unwrap();
    let state = TodoState {
        base: id(BASE),
        onto: id(BASE),
        tips: vec![id(MIDDLE)],
        scope: vec![id(MIDDLE)],
        marker_required: false,
        checkout_allowed: true,
        head_ref: Some(name.clone()),
        edit_refs: true,
        expected_refs: vec![ExpectedRef {
            name: name.clone(),
            old: Some(id(MIDDLE)),
            target: id(MIDDLE),
            new: Some(id(MIDDLE)),
            follows_tip: true,
            editable: true,
            placement: None,
        }],
        resolved: None,
        continuation_sources: Vec::new(),
    };
    let mut document = Vec::new();
    write_state(&mut document, &state);
    let document = String::from_utf8(document).unwrap();
    assert!(
        document.contains(r#""refs/heads/\377""#),
        "non-UTF-8 names use Git quoting"
    );
    let parsed = parse_state(document.as_bytes(), &known()).unwrap().expect("state is present");
    assert_eq!(parsed.expected_refs[0].name, name, "quoted names round-trip losslessly");
    let old = document.replacen("tix-rebase-state-v2", "tix-rebase-state-v1", 1);
    assert_eq!(
        parse_state(old.as_bytes(), &known()).map(|_| ()),
        Err(TodoError::UnsupportedStateVersion),
        "v1 order would be ambiguous under v2 semantics"
    );
    assert_eq!(parsed.head_ref, Some(name), "the attached branch round-trips losslessly");

    let read = |text: &[u8]| parse(text, &known(), Some(&lookups()));
    assert!(read(b"").unwrap().is_none(), "empty input cancels");
    assert!(read(b"pick deadbeef").unwrap().is_none(), "removing the anchor cancels");
    assert!(
        read(b"<!-- tix-rebase-state-v2\n-->").is_err(),
        "an unsupported present anchor is rejected"
    );
}

#[test]
fn pending_commits_on_the_checkout_ancestry_apply_an_unchanged_todo() {
    let prepared = prepared(BASE, &stack(), &[MIDDLE, TIP]);
    assert!(prepared.apply_unchanged, "pending commits make an unchanged todo actionable");
    assert!(
        prepared.document.starts_with(unchanged_notice(false, true).as_bytes()),
        "the first line explains why the unchanged todo remains actionable"
    );
}

#[test]
fn pending_commits_outside_the_checkout_ancestry_do_not_apply_an_unchanged_todo() {
    let mut commits = stack();
    commits.push(node(SIBLING, MIDDLE));
    let prepared = prepared(BASE, &commits, &[SIBLING]);
    assert!(
        !prepared.apply_unchanged,
        "pending commits on another fork must not replay the clean checkout ancestry"
    );
    assert!(
        prepared.document.starts_with(unchanged_notice(false, false).as_bytes()),
        "the first line identifies an unchanged todo as a no-op"
    );
    assert!(
        prepared
            .document
            .windows("↻".len())
            .any(|window| window == "↻".as_bytes()),
        "the pending sibling remains visible in the todo"
    );
}

#[test]
fn descendant_forks_stay_terse() {
    let mut commits = stack();
    commits.insert(0, node(SIBLING, MIDDLE));
    let prepared = prepared(BASE, &commits, &[]);
    let document = String::from_utf8(prepared.document.clone()).unwrap();
    assert!(document.contains(&format!("fork {} (base) base", short(BASE))));
    assert!(
        document.contains(&format!("fork {} ", short(MIDDLE))),
        "a fork within the editable tree has no external-anchor annotation"
    );
    let plan = plan_of(document.as_bytes()).unwrap();
    assert_eq!(plan.steps.len(), 3, "display annotations do not alter the plan");
}

#[test]
fn update_todo_roots_the_stack_at_the_hidden_tip_and_labels_only_that_heading() {
    let prepared = prepared(ONTO, &stack(), &[]);
    assert!(
        prepared.apply_unchanged,
        "moving the base makes an unchanged editor document actionable"
    );
    assert!(
        prepared.document.starts_with(unchanged_notice(true, false).as_bytes()),
        "the first line explains that the unchanged todo updates its base"
    );
    let document = String::from_utf8(prepared.document.clone()).unwrap();
    assert!(
        document.contains(&format!("# Rebase from `{}` onto `{}`", short(BASE), short(ONTO))),
        "the update target is explicit in the document title"
    );
    assert!(
        document.contains(&format!(
            "fork {} (updated-base) [A] [N] updated * _ [hidden] <base> `raw` \\ base",
            short(ONTO)
        )),
        "the unfamiliar fork target carries its raw UI title"
    );
    assert_eq!(
        document.matches("updated * _ [hidden] <base> `raw` \\ base").count(),
        1,
        "only the new update target is labelled"
    );

    let plan = plan_of(document.as_bytes()).unwrap();
    assert_eq!(plan.base, id(ONTO));
    assert_eq!(plan.steps[0].parent, PlanParent::Existing(id(ONTO)));
}

#[test]
fn update_todo_moves_a_branch_with_no_commits_to_the_new_base() {
    let found = outline(&Vec::new(), id(BASE), id(ONTO), id(BASE), true, &Vec::new()).unwrap();
    let prepared = prepare(
        &found,
        id(BASE),
        id(ONTO),
        &Vec::new(),
        OntoKind::UpdatedBase,
        true,
        Some(&name("refs/heads/empty")),
        &vec![expected("refs/heads/empty", BASE)],
        &labels(),
        b"updated",
    )
    .unwrap();
    assert!(
        prepared.apply_unchanged,
        "moving an empty stack's base makes the unchanged todo actionable"
    );
    let document = String::from_utf8(prepared.document).unwrap();
    assert!(
        document.lines().any(|line| line == "(empty)"),
        "the branch at the old base moves with the generated todo"
    );
    let mut lookups = lookups();
    lookups.head = id(BASE);
    let plan = parse(document.as_bytes(), &known(), Some(&lookups)).unwrap().unwrap().plan;
    assert!(plan.steps.is_empty(), "updating an empty stack creates no commits");
    assert_eq!(
        plan.expected_refs
            .iter()
            .find(|reference| reference.name == name("refs/heads/empty"))
            .and_then(|reference| reference.placement),
        Some(PlanParent::Existing(id(ONTO))),
        "the current branch is placed at the updated base"
    );
}

#[test]
fn parses_reordering_forks_empty_commits_and_a_moved_checkout() {
    let prepared = prepared(BASE, &stack(), &[]);
    let edited = format!(
        "# Rebase\n\nfork {}\n`pick {}` ignored\n@empty a new checkpoint\n\nfork {}\n@pick {}\n",
        short(BASE),
        short(TIP),
        short(TIP),
        short(MIDDLE),
    );
    let edited = with_state(&prepared, &edited);
    assert_eq!(
        plan_of(&edited).unwrap_err(),
        TodoError::RepeatedMarkedCommand,
        "two checkout markers are invalid"
    );

    let edited = format!(
        "fork {}\npick {} ignored display metadata\nempty a new checkpoint\n\nfork {}\n@pick {}\n",
        short(BASE),
        short(TIP),
        short(TIP),
        short(MIDDLE),
    );
    let plan = plan_of(&with_state(&prepared, &edited)).unwrap();
    assert_eq!(plan.steps.len(), 3);
    assert_eq!(
        plan.checkout.as_ref().map(|checkout| checkout.target),
        Some(PlanParent::Step(2))
    );
    assert_eq!(plan.steps[2].parent, PlanParent::Step(0));
    assert!(matches!(&plan.steps[1].commit, PlanCommit::Empty(title) if title == b"a new checkpoint"));
}

#[test]
fn squash_above_a_command_folds_into_it_and_may_carry_checkout() {
    let prepared = prepared(BASE, &stack(), &[]);
    let edited = with_state(
        &prepared,
        &format!(
            "fork {}\npick {}\n`@squash {}` ignored display metadata\n\nfork {}\nempty side\n",
            short(BASE),
            short(MIDDLE),
            short(TIP),
            short(TIP),
        ),
    );
    let plan = plan_of(&edited).unwrap();
    assert_eq!(plan.steps.len(), 2, "squash does not produce another commit");
    assert_eq!(plan.steps[0].squash, [id(TIP)]);
    assert_eq!(
        plan.checkout.as_ref().map(|checkout| checkout.target),
        Some(PlanParent::Step(0)),
        "the squash marker selects the folded result"
    );
    assert_eq!(
        plan.steps[1].parent,
        PlanParent::Step(0),
        "the squashed ID resolves to the folded result as a fork target"
    );

    let invalid = with_state(
        &prepared,
        &format!("fork {}\n@squash {}\npick {}\n", short(BASE), short(TIP), short(MIDDLE)),
    );
    assert_eq!(
        plan_of(&invalid).unwrap_err(),
        TodoError::SquashWithoutCommand,
        "a fork cannot begin with squash"
    );
}

#[test]
fn continuation_todos_round_trip_the_resolved_index_and_remaining_squashes() {
    let branch = name("refs/heads/continued");
    let prepared = prepare_continuation(
        &Plan {
            base: id(BASE),
            scope: vec![id(MIDDLE), id(TIP)],
            steps: vec![PlanStep {
                parent: PlanParent::Existing(id(BASE)),
                commit: PlanCommit::Resolved(id(MIDDLE)),
                squash: vec![id(TIP)],
            }],
            checkout: Some(PlanCheckout {
                target: PlanParent::Step(0),
                reference: Some(branch.clone()),
            }),
            expected_refs: vec![ExpectedRef {
                name: branch.clone(),
                old: None,
                target: id(MIDDLE),
                new: Some(id(MIDDLE)),
                follows_tip: false,
                editable: true,
                placement: Some(PlanParent::Step(0)),
            }],
        },
        &vec![id(MIDDLE)],
        true,
        &labels(),
    )
    .unwrap();
    assert!(
        prepared.document.starts_with(
            b"<!-- Rebase help follows. Saving unchanged continues the materialized rebase"
        ),
        "the continuation explains that saving unchanged resumes it"
    );
    let document = String::from_utf8(prepared.document.clone()).unwrap();
    assert!(document.contains("(continued)"), "continuation refs are not marked");
    assert!(!document.contains("(@continued)"), "HEAD attachment stays in transaction state");
    assert!(document.contains(&"0".repeat(40)), "the conflict uses the full null ID");
    assert!(
        document.contains(&format!("`squash {}`", short(TIP))),
        "unapplied squash sources remain editable"
    );
    let plan = plan_of(&prepared.document).unwrap();
    assert!(matches!(plan.steps[0].commit, PlanCommit::Resolved(found) if found == id(MIDDLE)));
    assert_eq!(plan.steps[0].squash, [id(TIP)]);
    assert_eq!(
        plan.checkout.as_ref().and_then(|checkout| checkout.reference.as_ref()),
        Some(&branch),
        "the continuation retains its attached checkout"
    );
    assert!(
        plan.expected_refs.iter().any(|reference| reference.name == branch
            && reference.old.is_none()
            && reference.placement == Some(PlanParent::Step(0))),
        "a pending branch creation retains its nonexistence check and placement"
    );
}

#[test]
fn continuations_that_are_not_edited_read_as_their_plan() {
    let placed = |text: &str, digit: u128, place: PlanParent| ExpectedRef {
        new: None,
        placement: Some(place),
        ..expected(text, digit)
    };
    let step = |parent: PlanParent, commit: PlanCommit<Vec<u8>>, squash: Vec<ObjectId>| PlanStep {
        parent,
        commit,
        squash,
    };
    let plan = || Plan {
        base: id(BASE),
        scope: vec![id(MIDDLE), id(TIP), id(SIBLING)],
        steps: vec![
            step(PlanParent::Existing(id(BASE)), PlanCommit::Resolved(id(MIDDLE)), Vec::new()),
            step(PlanParent::Step(0), PlanCommit::Empty("r\u{e9}sum\u{e9}".into()), Vec::new()),
            step(PlanParent::Step(0), PlanCommit::Pick(id(TIP)), vec![id(SIBLING)]),
            step(PlanParent::Existing(id(ONTO)), PlanCommit::Empty(b"alone".to_vec()), Vec::new()),
        ],
        checkout: Some(PlanCheckout {
            target: PlanParent::Step(2),
            reference: Some(name("refs/heads/main")),
        }),
        expected_refs: vec![
            placed("refs/heads/main", TIP, PlanParent::Step(2)),
            placed("refs/heads/below", BASE, PlanParent::Existing(id(BASE))),
            placed("refs/heads/middle", MIDDLE, PlanParent::Step(1)),
            ExpectedRef { new: None, ..expected("refs/heads/dropped", MIDDLE) },
            ExpectedRef { editable: false, ..expected("refs/tags/fixed", TIP) },
        ],
    };
    let tips = vec![id(TIP), id(SIBLING)];
    let prepared = prepare_continuation(&plan(), &tips, true, &labels()).unwrap();
    let found = parse(&prepared.document, &known(), Some(&lookups())).unwrap().unwrap();
    assert_eq!(found.tips, tips);
    assert_eq!(found.plan, plan());
}

#[test]
fn text_that_is_only_shown_changes_nothing() {
    let document = String::from_utf8(prepared(BASE, &stack(), &[]).document).unwrap();
    let read = |text: &str| parse(text.as_bytes(), &known(), Some(&lookups())).unwrap().unwrap();
    let line = document
        .lines()
        .find(|line| line.contains("2000-01-03 author tip"))
        .expect("the tip is in the todo");
    let command = &line[..line[1..].find('`').unwrap() + 2];
    let separator = document
        .lines()
        .find(|line| line.contains("fork "))
        .expect("there is a fork");
    for behind in ["", "  ", " other words `quoted` (main)"] {
        let edited = document.replace(line, &format!("{command}{behind}"));
        assert_eq!(read(&edited), read(&document));
        let edited = document
            .replace(separator, &format!("\u{2500} fork {}{behind} \u{2500}", short(BASE)));
        assert_eq!(read(&edited), read(&document));
    }
    let everywhere: String = document
        .lines()
        .map(|line| match (line.strip_prefix('`').and_then(|rest| rest.find('`')), line) {
            (Some(end), _) => format!("{} \u{e9}dited\n", &line[..end + 2]),
            (None, line) if line.contains("fork ") && line.starts_with('\u{2500}') => {
                let target = line.split("fork ").nth(1).and_then(|rest| rest.split(' ').next());
                format!("\u{2500} fork {} (elsewhere)\u{2500}\n", target.unwrap())
            }
            (None, line) => format!("{line}\n"),
        })
        .collect();
    assert_ne!(everywhere, document);
    assert_eq!(read(&everywhere), read(&document), "in however many lines");
    let titled = document.replace(line, &format!("{line}\n`empty` a title"));
    assert!(
        read(&titled)
            .plan
            .steps
            .iter()
            .any(|step| step.commit == PlanCommit::Empty(b"a title".to_vec())),
        "an empty commit without a title takes what is behind it"
    );
}

#[test]
fn labels_show_the_states_of_their_commit() {
    let pending = Header { name: b"tix-rebase-parent".to_vec(), value: b"parent".to_vec() };
    let label = commit_label(
        id(TIP),
        b"3333333",
        "\u{1f6a7}".as_bytes(),
        &vec![pending],
        true,
        b"tip",
        None,
    );
    assert_eq!((label.id, label.change_id), (id(TIP), None));
    assert_eq!((label.short.as_slice(), label.info.as_slice()), (&b"3333333"[..], &b"tip"[..]));
    assert_eq!(
        String::from_utf8(label.states).unwrap(),
        "\u{1f6a7} \u{21bb} \u{25cb} \u{1f381} "
    );
}

#[test]
fn unchanged_checkout_marker_cannot_be_removed() {
    let prepared = prepared(BASE, &stack(), &[]);
    let edited = with_state(&prepared, &format!("fork {}\n", short(BASE)));
    assert_eq!(
        plan_of(&edited).unwrap_err(),
        TodoError::MarkerNotRetained,
        "HEAD must be moved before its pick is dropped"
    );
}

#[test]
fn reference_lines_move_create_delete_and_detach_head() {
    let prepared = prepared(BASE, &stack(), &[]);
    let generated = String::from_utf8(prepared.document.clone()).unwrap();
    assert!(
        generated.contains("(main, refs/patches/tip)"),
        "the generated todo shows the attached branch as an ordinary ref"
    );
    assert!(!generated.contains("@main"), "existing HEAD attachment is implicit");
    let attached = |document: &[u8]| {
        plan_of(document).unwrap().checkout.and_then(|checkout| checkout.reference)
    };
    assert_eq!(
        attached(&prepared.document),
        Some(name("refs/heads/main")),
        "an unchanged todo retains the original attachment"
    );
    let explicit = generated.replace("(main, refs/patches/tip)", "(@main, refs/patches/tip)");
    assert_eq!(
        attached(explicit.as_bytes()),
        Some(name("refs/heads/main")),
        "adding @ explicitly enforces the same attachment"
    );

    let mismatched = with_state(
        &prepared,
        &format!(
            "fork {}\npick {}\n(@main)\n@pick {}\n",
            short(BASE),
            short(MIDDLE),
            short(TIP)
        ),
    );
    assert_eq!(
        plan_of(&mismatched).unwrap_err(),
        TodoError::ConflictingCheckout,
        "an explicit attachment must agree with @pick"
    );

    let edited = with_state(
        &prepared,
        &format!(
            "fork {}\npick {}\n(new-1, main)\n@pick {}\n",
            short(BASE),
            short(MIDDLE),
            short(TIP)
        ),
    );
    let plan = plan_of(&edited).unwrap();
    assert!(
        plan.checkout.as_ref().is_some_and(|checkout| checkout.reference.is_none()),
        "moving the implicit HEAD branch away from @ requests a detached checkout"
    );
    let placed = |text: &str| {
        plan.expected_refs
            .iter()
            .find(|reference| reference.name == name(text))
            .map(|reference| (reference.old, reference.placement, reference.new))
    };
    assert_eq!(
        placed("refs/heads/new-1").map(|(old, placement, _)| (old, placement)),
        Some((None, Some(PlanParent::Step(0)))),
        "the new branch line points at the following command below it"
    );
    assert_eq!(placed("refs/patches/middle").unwrap().2, None, "omitted refs are deleted");
    assert_eq!(placed("refs/patches/tip").unwrap().2, None, "omitted refs are deleted");
}

#[test]
fn reference_lines_import_out_of_scope_refs_and_may_attach_head() {
    let prepared = prepared(BASE, &stack(), &[]);
    let edited = with_state(
        &prepared,
        &format!(
            "fork {}\npick {}\n(outside)\n@pick {}\n(@refs/patches/attach)\n",
            short(BASE),
            short(MIDDLE),
            short(TIP)
        ),
    );
    let plan = plan_of(&edited).unwrap();
    let placed = |text: &str| {
        plan.expected_refs
            .iter()
            .find(|reference| reference.name == name(text))
            .map(|reference| (reference.old, reference.placement))
    };
    assert_eq!(
        placed("refs/heads/outside"),
        Some((Some(id(BASE)), Some(PlanParent::Step(0)))),
        "an unmarked out-of-scope ref moves like a generated ref"
    );
    assert_eq!(
        placed("refs/patches/attach"),
        Some((Some(id(BASE)), Some(PlanParent::Step(1)))),
        "the marked out-of-scope ref moves to the selected result"
    );
    assert_eq!(
        plan.checkout.unwrap().reference,
        Some(name("refs/patches/attach")),
        "HEAD attaches to an editable ref outside refs/heads"
    );
}

#[test]
fn deleting_the_current_branch_is_deferred_until_head_detaches() {
    let prepared = prepared(BASE, &stack(), &[]);
    let edited =
        with_state(&prepared, &format!("fork {}\n@pick {}\n", short(BASE), short(TIP)));
    let plan = plan_of(&edited).unwrap();
    let main = plan
        .expected_refs
        .iter()
        .find(|reference| reference.name == name("refs/heads/main"))
        .expect("the branch is part of the plan");
    assert_eq!(main.new, None, "the departed current branch is deleted");
    assert_eq!(main.old, Some(id(TIP)), "it remains until then");
    assert_eq!(plan.checkout.unwrap().reference, None, "HEAD is detached");
}

#[test]
fn todos_reject_an_unborn_head() {
    let prepared = prepared(BASE, &stack(), &[]);
    assert_eq!(
        parse(&prepared.document, &known(), None).map(|_| ()),
        Err(TodoError::UnbornHead),
        "application rejects an unborn HEAD"
    );
}

#[test]
fn malformed_todos_are_rejected() {
    let prepared = prepared(BASE, &stack(), &[]);
    let fails = |commands: String| plan_of(&with_state(&prepared, &commands)).unwrap_err();
    let (base, middle, tip) = (short(BASE), short(MIDDLE), short(TIP));
    assert_eq!(fails(String::new()), TodoError::NoFork);
    assert_eq!(fails(format!("pick {middle}\n")), TodoError::CommandWithoutFork);
    assert_eq!(
        fails(format!("fork {base}\npick {middle}\n@pick {middle}\n")),
        TodoError::PickedTwice
    );
    assert_eq!(fails(format!("fork {base}\n@pick {}\n", short(SIBLING))), TodoError::PickOutsideScope);
    assert_eq!(fails(format!("fork {base}\n@pick\n")), TodoError::PickWithoutId);
    assert_eq!(fails(format!("fork {base}\n@squash\n")), TodoError::SquashWithoutCommand);
    assert_eq!(
        fails(format!("fork {base}\npick {middle}\n@squash\n")),
        TodoError::SquashWithoutId
    );
    assert_eq!(fails(format!("fork {base}\n@empty\n")), TodoError::EmptyWithoutTitle);
    assert_eq!(fails(format!("fork {base}\n@drop {tip}\n")), TodoError::UnsupportedCommand);
    assert_eq!(
        fails("──── fork ────\n@empty one\n".to_string()),
        TodoError::SeparatorWithoutFork
    );
    assert_eq!(fails("fork fffffff\n@empty one\n".to_string()), TodoError::UnknownCommit);
    assert_eq!(fails("fork main!\n@empty one\n".to_string()), TodoError::NotAnIdPrefix);
    assert_eq!(
        fails(format!("fork {base}\n@pick {tip}\n(main, main)\n")),
        TodoError::RepeatedPlacement
    );
    assert_eq!(
        fails(format!("fork {base}\n@pick {tip}\n(refs/worktree/tix/stashes/1)\n")),
        TodoError::ReservedNamespace
    );
    assert_eq!(
        fails(format!("fork {base}\n@pick {tip}\n(no name)\n")),
        TodoError::InvalidName
    );
}

#[test]
fn unedited_todos_read_as_their_outline() {
    let commits = vec![node(TIP, MIDDLE), node(SIBLING, MIDDLE), node(MIDDLE, BASE)];
    let found = outline(&commits, id(BASE), id(ONTO), id(TIP), true, &Vec::new()).unwrap();
    let held: Vec<_> = found
        .sections
        .iter()
        .map(|section| (section.parent, section.commits.clone()))
        .collect();
    assert_eq!(
        held,
        vec![(id(ONTO), vec![id(MIDDLE), id(TIP)]), (id(MIDDLE), vec![id(SIBLING)])]
    );

    let plan = plan_of(&prepared(ONTO, &commits, &[]).document).unwrap();
    let pick = |parent, digit| PlanStep {
        parent,
        commit: PlanCommit::Pick(id(digit)),
        squash: Vec::new(),
    };
    assert_eq!(plan.base, id(ONTO));
    assert_eq!(plan.scope, vec![id(TIP), id(SIBLING), id(MIDDLE)]);
    assert_eq!(
        plan.steps,
        vec![
            pick(PlanParent::Existing(id(ONTO)), MIDDLE),
            pick(PlanParent::Step(0), TIP),
            pick(PlanParent::Step(0), SIBLING),
        ]
    );
    assert_eq!(
        plan.checkout,
        Some(PlanCheckout {
            target: PlanParent::Step(1),
            reference: Some(name("refs/heads/main")),
        })
    );
    let places: Vec<_> = plan.expected_refs.iter().map(|reference| reference.placement).collect();
    assert_eq!(
        places,
        vec![
            Some(PlanParent::Step(1)),
            Some(PlanParent::Step(0)),
            Some(PlanParent::Step(1)),
        ]
    );
}
