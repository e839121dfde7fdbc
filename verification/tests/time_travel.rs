use gix_tix::ids::ObjectId;
use gix_tix::names::FullName;
use gix_tix::refs::State;
use gix_tix::time_travel::attach::{plan_attach, remembered_branch, CurrentAttachment};
use gix_tix::time_travel::course::{
    CurrentTravel, CurrentTravelEvent, Leg, TravelAction, TravelEvent,
};
use gix_tix::time_travel::journey::{
    append_notice, pin_followed, pin_forgotten, reconcile_head_pin, Event, Reattached, Reconciling,
};
use gix_tix::time_travel::moves::{
    attach_head_edit, plan_move, Checkout, CurrentJourney, CurrentWorktree, Request, Stage,
    Worktree,
};
use gix_tix::time_travel::pins::{
    cleanup_new_pin, create_or_reuse_pin, create_pin_edit, deferred_deletions, delete_pin_edit,
    new_pin_name, pin_label, remove_pins, selected_pin, toggle_pin, Pin, Pinned, Toggle,
};
use gix_tix::time_travel::travel::{
    accept_conflict, affected, apply_review_stash, check_start, crosses_review_boundary,
    explain_failure, find_return_reference, keeps_worktree, pending_base, return_pin, Kept, Replay,
    Waypoint,
};
use gix_tix::time_travel::TravelError;
use gix_tix::undo::changes::{Change, PreviousValue, RefChange, RefEdit, Target};

fn id(low: u32) -> ObjectId {
    ObjectId { high: 0xabcd_ef00 << 96, low }
}

fn name(text: &str) -> FullName {
    FullName::new(text.as_bytes()).unwrap()
}

fn text(bytes: &[u8]) -> String {
    String::from_utf8(bytes.to_vec()).unwrap()
}

fn hex(low: u32) -> String {
    text(&id(low).to_hex())
}

const MAIN: &str = "refs/heads/main";
const TOPIC: &str = "refs/heads/topic";

fn pin(short: &str, target: Target<FullName>, low: u32) -> Pin<FullName> {
    Pin { name: name(&format!("refs/worktree/tix/pins/{short}")), target, id: id(low) }
}

fn direct(short: &str, low: u32) -> Pin<FullName> {
    pin(short, Target::Object(id(low)), low)
}

fn symbolic(short: &str, branch: &str, low: u32) -> Pin<FullName> {
    pin(short, Target::Symbolic(name(branch)), low)
}

fn names(pins: &[Pin<FullName>]) -> Vec<FullName> {
    pins.iter().map(|pin| pin.name.clone()).collect()
}

fn worktree(head: State<FullName>, low: u32, pins: Vec<Pin<FullName>>) -> CurrentWorktree {
    let taken = names(&pins);
    let mut head_pin = State::Missing;
    for pin in &pins {
        if pin.is_head() {
            head_pin = pin.target.state();
        }
    }
    Worktree {
        head,
        head_id: Some(id(low)),
        pins,
        head_pin,
        taken,
        elsewhere: Vec::new(),
        followed: Vec::new(),
    }
}

fn on(branch: &str) -> State<FullName> {
    State::Symbolic(name(branch))
}

fn request(selected: u32, departure: u32) -> Request<FullName> {
    Request {
        selected: id(selected),
        reference: None,
        departure: Some(id(departure)),
        contained: false,
    }
}

fn moved(worktree: &CurrentWorktree, request: &Request<FullName>) -> (Option<RefEdit<FullName>>, CurrentJourney) {
    plan_move(worktree, request).unwrap().unwrap()
}

fn done() -> Event<Vec<u8>, Vec<RefChange<FullName>>> {
    Event::Done(Vec::new())
}

fn quiet() -> Event<Vec<u8>, Vec<RefChange<FullName>>> {
    Event::Noted { addition: None, changes: Vec::new() }
}

fn failed(reason: &str) -> Event<Vec<u8>, Vec<RefChange<FullName>>> {
    Event::Failed(reason.as_bytes().to_vec())
}

#[test]
fn travels_with_symbolic_and_direct_pins_and_returns() {
    let start = worktree(on(MAIN), 2, Vec::new());
    let (edit, mut journey) = moved(&start, &request(1, 2));
    let edit = edit.unwrap();
    assert_eq!(edit.name, name("refs/worktree/tix/pins/HEAD"), "the branch is remembered");
    match &edit.change {
        Change::Update { expected, new, .. } => {
            assert_eq!(*expected, PreviousValue::MustNotExist);
            assert_eq!(*new, Target::Symbolic(name(MAIN)));
        }
        Change::Delete { .. } => panic!("the pin is made"),
    }
    assert_eq!(journey.checkout, Checkout::Detach(id(1)));
    assert_eq!(journey.provisional, None);
    assert_eq!(journey.changes.len(), 1);
    journey.advance(done()).unwrap();
    assert_eq!(journey.stage, Stage::Reopen);
    assert_eq!(journey.changes.len(), 2, "HEAD moved");
    assert_eq!(journey.changes[1].before, on(MAIN));
    assert_eq!(journey.changes[1].after, State::Object(id(1)));
    journey.advance(done()).unwrap();
    assert_eq!(journey.stage, Stage::Reconcile);
    journey.advance(quiet()).unwrap();
    assert_eq!(journey.stage, Stage::Arrived);
    assert_eq!(text(&journey.notice), format!("time-travelled to {}", &hex(1)[..7]));

    let back = worktree(State::Object(id(1)), 1, vec![symbolic("HEAD", MAIN, 2)]);
    let (edit, journey) = moved(&back, &request(2, 1));
    assert_eq!(journey.checkout, Checkout::Branch(name(MAIN)));
    assert_eq!(journey.head_after, on(MAIN));
    assert_eq!(text(&journey.notice), "returned to main");
    assert!(edit.is_some(), "the commit that HEAD leaves is pinned");
    assert_eq!(journey.provisional.unwrap().target, Target::Object(id(1)));

    let mut elsewhere = worktree(State::Object(id(1)), 1, vec![symbolic("HEAD", MAIN, 2)]);
    elsewhere.elsewhere = vec![name(MAIN)];
    let (_, journey) = moved(&elsewhere, &request(2, 1));
    assert_eq!(
        journey.checkout,
        Checkout::Detach(id(2)),
        "a branch that another worktree is on is not taken"
    );

    let pinned = worktree(State::Object(id(1)), 1, vec![direct("keep", 3)]);
    let (_, journey) = moved(&pinned, &request(3, 1));
    assert_eq!(journey.checkout, Checkout::Detach(id(3)));
    assert_eq!(text(&journey.notice), "returned from pin:keep");
    assert_eq!(journey.destination, Some(direct("keep", 3)));
}

#[test]
fn ignores_non_branch_pins_created_from_the_ref_tree() {
    let pins = vec![
        symbolic("tag", "refs/tags/v1", 1),
        symbolic("HEAD", MAIN, 1),
        symbolic("review/1", MAIN, 1),
        direct("other", 2),
    ];
    assert_eq!(selected_pin(&pins, id(1)), None);
    let (_, journey) = moved(&worktree(State::Object(id(2)), 2, pins), &request(3, 2));
    assert_eq!(journey.checkout, Checkout::Detach(id(3)));
}

#[test]
fn pins_of_branches_are_preferred_and_then_the_first_by_name() {
    let pins =
        vec![direct("a", 1), symbolic("z", TOPIC, 1), symbolic("b", MAIN, 1), direct("c", 2)];
    assert_eq!(selected_pin(&pins, id(1)), Some(2));
    assert_eq!(selected_pin(&pins, id(2)), Some(3));
    assert_eq!(selected_pin(&pins, id(3)), None);
}

#[test]
fn head_stays_where_it_is() {
    let start = worktree(on(MAIN), 1, Vec::new());
    let mut here = request(1, 1);
    here.reference = Some(name(MAIN));
    assert!(plan_move(&start, &here).unwrap().is_none());
    assert!(plan_move(&worktree(State::Object(id(1)), 1, Vec::new()), &request(1, 1))
        .unwrap()
        .is_none());
    let (_, journey) = moved(&start, &request(1, 1));
    assert_eq!(journey.head_after, State::Object(id(1)), "HEAD leaves its branch");

    let mut unborn = worktree(on(MAIN), 1, Vec::new());
    unborn.head_id = None;
    assert_eq!(plan_move(&unborn, &request(1, 1)).unwrap_err(), TravelError::UnbornHead);
}

#[test]
fn references_are_checked_out_by_name() {
    let start = worktree(on(MAIN), 1, Vec::new());
    let mut to_topic = request(2, 1);
    to_topic.reference = Some(name(TOPIC));
    let (edit, journey) = moved(&start, &to_topic);
    assert_eq!(journey.checkout, Checkout::Branch(name(TOPIC)));
    assert_eq!(
        journey.checkout.arguments().unwrap(),
        vec![b"--no-guess".to_vec(), b"topic".to_vec()]
    );
    assert_eq!(text(&journey.notice), "checked out topic");
    assert!(edit.is_some(), "the branch that HEAD leaves is pinned");
    assert_eq!(journey.provisional.unwrap().target, Target::Symbolic(name(MAIN)));

    let mut to_other = request(2, 1);
    to_other.reference = Some(name("refs/patches/one"));
    to_other.contained = true;
    let (edit, journey) = moved(&start, &to_other);
    assert!(edit.is_none());
    assert_eq!(
        journey.checkout,
        Checkout::Attach { id: id(2), reference: name("refs/patches/one") }
    );
    assert_eq!(
        journey.checkout.arguments().unwrap(),
        vec![b"--detach".to_vec(), id(2).to_hex()]
    );
    assert_eq!(Checkout::Branch(name("refs/tags/v1")).arguments(), None);
    let edit = attach_head_edit(id(2), &name("refs/patches/one")).unwrap();
    assert_eq!(edit.name, name("HEAD"));
    match edit.change {
        Change::Update { expected, new, .. } => {
            assert_eq!(expected, PreviousValue::MustExistAndMatch(Target::Object(id(2))));
            assert_eq!(new, Target::Symbolic(name("refs/patches/one")));
        }
        Change::Delete { .. } => panic!("HEAD is updated"),
    }
}

#[test]
fn sideways_travel_preserves_an_unreferenced_departure() {
    let start = worktree(State::Object(id(1)), 1, Vec::new());
    let (edit, mut journey) = moved(&start, &request(2, 1));
    let pinned = journey.provisional.as_ref().unwrap();
    assert_eq!(text(pinned.name.as_bytes()), format!("refs/worktree/tix/pins/{}", &hex(1)[..8]));
    assert_eq!(edit.unwrap(), create_pin_edit(pinned));
    for event in [done(), done(), quiet()] {
        journey.advance(event).unwrap();
    }
    assert_eq!(journey.stage, Stage::InspectTips);
    journey.advance(Event::Tips { contain: false }).unwrap();
    assert_eq!(journey.stage, Stage::Arrived);
    assert_eq!(
        text(&journey.notice),
        format!("time-travelled to {}; saved pin:{}", &hex(2)[..7], &hex(1)[..8])
    );
}

#[test]
fn explicit_tips_avoid_redundant_pins_and_failed_checkouts_clean_up() {
    let start = worktree(State::Object(id(1)), 1, Vec::new());
    let (_, mut journey) = moved(&start, &request(2, 1));
    for event in [done(), done(), quiet(), Event::Tips { contain: true }] {
        journey.advance(event).unwrap();
    }
    assert_eq!(journey.stage, Stage::RemoveProvisional);
    journey.advance(failed("locked")).unwrap();
    assert_eq!(journey.stage, Stage::Arrived);
    assert_eq!(
        text(&journey.notice),
        format!(
            "time-travelled to {}; redundant pin:{} remains: locked",
            &hex(2)[..7],
            &hex(1)[..8]
        )
    );

    let (_, mut journey) = moved(&start, &request(2, 1));
    assert_eq!(journey.changes.len(), 1);
    journey.advance(failed("dirty")).unwrap();
    assert_eq!(journey.stage, Stage::Restore);
    assert_eq!(journey.changes.len(), 1, "the pin is to be taken back");
    journey.advance(done()).unwrap();
    assert_eq!(journey.stage, Stage::Stranded);
    assert_eq!(text(&journey.notice), "dirty");

    let (_, mut journey) = moved(&start, &request(2, 1));
    journey.advance(failed("dirty")).unwrap();
    journey.advance(failed("locked")).unwrap();
    assert_eq!(
        text(&journey.notice),
        "checkout failed and provisional refs remain: locked: dirty"
    );
}

#[test]
fn troubles_after_the_checkout_are_reported() {
    let start = worktree(State::Object(id(1)), 1, vec![direct("keep", 2)]);
    let arrive = || moved(&start, &request(2, 1)).1;
    let mut journey = arrive();
    journey.advance(done()).unwrap();
    journey.advance(failed("gone")).unwrap();
    assert_eq!(journey.stage, Stage::Arrived);
    assert_eq!(
        text(&journey.notice),
        "returned from pin:keep; post-checkout cleanup skipped: gone"
    );

    let mut journey = arrive();
    for event in [done(), done()] {
        journey.advance(event).unwrap();
    }
    assert_eq!(journey.stage, Stage::RemoveDestination);
    for event in [failed("a"), failed("b"), failed("c")] {
        journey.advance(event).unwrap();
    }
    assert_eq!(
        text(&journey.notice),
        format!(
            "returned from pin:keep; destination pin remains: a; HEAD-pin reconciliation failed: b; kept pin:{}: c",
            &hex(1)[..8]
        )
    );
    assert_eq!(journey.stage, Stage::Arrived);
    journey.advance(done()).unwrap();
    assert_eq!(journey.stage, Stage::Arrived, "the journey is over");
}

fn attach(
    worktree: &CurrentWorktree,
    branch: &State<FullName>,
    contained: bool,
) -> Result<CurrentAttachment, TravelError> {
    plan_attach(worktree, branch, contained, &Vec::new(), &Vec::new())
}

#[test]
fn attach_moves_and_attaches_the_remembered_branch_without_touching_files() {
    let detached = worktree(State::Object(id(1)), 1, vec![symbolic("HEAD", MAIN, 2)]);
    let found = attach(&detached, &State::Object(id(2)), false).unwrap();
    let pinned = found.pin.unwrap();
    assert!(pinned.created);
    assert_eq!(pinned.pin.target, Target::Object(id(2)), "the old tip is kept");
    assert_eq!(found.edits.len(), 2);
    assert_eq!(found.edits[0].name, name(MAIN));
    assert_eq!(found.edits[1].name, name("HEAD"));
    let changes = &found.journey.changes;
    assert_eq!(changes.len(), 3);
    assert_eq!(changes[0].after, State::Object(id(2)), "the old tip is pinned first");
    assert_eq!((&changes[1].name, &changes[1].after), (&name("HEAD"), &on(MAIN)));
    assert_eq!((&changes[2].name, &changes[2].after), (&name(MAIN), &State::Object(id(1))));
    assert_eq!(found.journey.stage, Stage::InspectTips);
    let mut journey = found.journey;
    journey.advance(Event::Tips { contain: false }).unwrap();
    assert_eq!(
        text(&journey.notice),
        format!("attached main at {}; saved pin:{}", &hex(1)[..7], &hex(2)[..8])
    );
}

#[test]
fn attach_does_not_pin_a_tip_retained_by_another_branch() {
    let detached = worktree(State::Object(id(1)), 1, vec![symbolic("HEAD", MAIN, 2)]);
    let found = attach(&detached, &State::Object(id(2)), false).unwrap();
    let mut journey = found.journey;
    journey.advance(Event::Tips { contain: true }).unwrap();
    assert_eq!(journey.stage, Stage::RemoveProvisional, "another branch has the old tip");
    journey.advance(done()).unwrap();
    assert_eq!(text(&journey.notice), format!("attached main at {}", &hex(1)[..7]));

    let contained = attach(&detached, &State::Object(id(2)), true).unwrap();
    assert_eq!(contained.pin, None, "HEAD itself has the old tip");
    let same = worktree(
        State::Object(id(2)),
        2,
        vec![symbolic("HEAD", MAIN, 2), direct("here", 2)],
    );
    let found = attach(&same, &State::Object(id(2)), false).unwrap();
    assert_eq!(found.edits.len(), 1, "the branch stays");
    assert_eq!(found.journey.changes.len(), 1, "only HEAD changes");
    assert_eq!(found.journey.stage, Stage::RemoveDestination);
    let mut journey = found.journey;
    journey.advance(done()).unwrap();
    assert_eq!(journey.stage, Stage::Arrived, "the pin of HEAD is left to others");
}

#[test]
fn attach_rejects_a_branch_owned_by_another_worktree() {
    let fails = |change: fn(&mut CurrentWorktree), branch: State<FullName>| {
        let mut detached = worktree(State::Object(id(1)), 1, vec![symbolic("HEAD", MAIN, 2)]);
        change(&mut detached);
        attach(&detached, &branch, false).map(|_| ()).unwrap_err()
    };
    let tip = || State::Object(id(2));
    assert_eq!(
        fails(|worktree| worktree.elsewhere = vec![name(MAIN)], tip()),
        TravelError::BranchElsewhere
    );
    assert_eq!(fails(|worktree| worktree.head = on(MAIN), tip()), TravelError::NotDetached);
    assert_eq!(fails(|worktree| worktree.head_id = None, tip()), TravelError::UnbornHead);
    assert_eq!(fails(|worktree| worktree.pins = Vec::new(), tip()), TravelError::NoHeadPin);
    assert_eq!(
        fails(|worktree| worktree.pins = vec![direct("HEAD", 2)], tip()),
        TravelError::HeadPinOffBranch
    );
    assert_eq!(
        fails(|worktree| worktree.pins = vec![symbolic("HEAD", "refs/tags/v1", 2)], tip()),
        TravelError::HeadPinOffBranch
    );
    assert_eq!(fails(|_| (), State::Missing), TravelError::BranchDisappeared);
    assert_eq!(fails(|_| (), on(TOPIC)), TravelError::BranchNotDirect);
    assert_eq!(fails(|_| (), State::Object(id(3))), TravelError::BranchChanged);
}

#[test]
fn attaching_notices_what_changed_meanwhile() {
    use_validate(|_| (), Ok(()));
    use_validate(|worktree| worktree.head_id = Some(id(9)), Err(TravelError::HeadChanged));
    use_validate(|worktree| worktree.head = on(MAIN), Err(TravelError::HeadChanged));
    use_validate(|worktree| worktree.pins = Vec::new(), Err(TravelError::HeadPinDisappeared));
    use_validate(
        |worktree| worktree.pins = vec![symbolic("HEAD", TOPIC, 2)],
        Err(TravelError::HeadPinChanged),
    );
    use_validate(
        |worktree| worktree.pins = vec![symbolic("HEAD", MAIN, 3)],
        Err(TravelError::HeadPinChanged),
    );
}

fn use_validate(change: fn(&mut CurrentWorktree), expected: Result<(), TravelError>) {
    let mut now = worktree(State::Object(id(1)), 1, vec![symbolic("HEAD", MAIN, 2)]);
    let known = remembered_branch(&now.pins).unwrap();
    change(&mut now);
    assert_eq!(
        gix_tix::time_travel::attach::validate_attach(&now, id(1), &known, &State::Object(id(2))),
        expected
    );
}

#[test]
fn explicit_attachment_clears_the_head_pin() {
    let pins = vec![direct("other", 1), symbolic("HEAD", MAIN, 2)];
    assert_eq!(
        reconcile_head_pin(&pins, false, Some(id(2))),
        Reconciling::Forget(symbolic("HEAD", MAIN, 2))
    );
    assert_eq!(pin_forgotten(Ok(Vec::new())), quiet());
    assert_eq!(
        pin_forgotten(Err(b"locked".to_vec())),
        Event::Noted { addition: Some(b"HEAD pin remains: locked".to_vec()), changes: Vec::new() }
    );
    assert_eq!(reconcile_head_pin(&pins, true, Some(id(1))), Reconciling::Nothing);
    assert_eq!(reconcile_head_pin(&pins[..1].iter().map(Pin::copy).collect(), false, None), Reconciling::Nothing);
    assert_eq!(
        reconcile_head_pin(&vec![direct("HEAD", 2)], true, Some(id(2))),
        Reconciling::NotSymbolic
    );
}

#[test]
fn failed_reattachment_keeps_the_head_pin() {
    let pins = vec![symbolic("HEAD", MAIN, 2)];
    assert_eq!(
        reconcile_head_pin(&pins, true, Some(id(2))),
        Reconciling::Reattach(symbolic("HEAD", MAIN, 2))
    );
    let noted = |result| match pin_followed(&name(MAIN), id(2), result).unwrap() {
        Event::Noted { addition, changes } => (text(&addition.unwrap()), changes.len()),
        _ => panic!("something is said"),
    };
    assert_eq!(
        noted(Reattached::CheckoutFailed(b"dirty".to_vec())),
        ("could not reattach HEAD to main: dirty; HEAD pin remains".into(), 0)
    );
    assert_eq!(
        noted(Reattached::PinRemains(b"locked".to_vec())),
        ("reattached HEAD to main; HEAD pin remains: locked".into(), 1)
    );
    assert_eq!(noted(Reattached::Done(Vec::new())), ("reattached HEAD to main".into(), 1));
}

#[test]
fn removes_every_pin_at_the_selected_commit() {
    let pins = vec![
        direct("first", 1),
        direct("second", 1),
        direct("other", 2),
        symbolic("HEAD", MAIN, 1),
        symbolic("review/1", MAIN, 1),
    ];
    let edits = remove_pins(&pins, id(1));
    assert_eq!(edits, vec![delete_pin_edit(&pins[0]), delete_pin_edit(&pins[1])]);
    assert_eq!(edits[0].name, name("refs/worktree/tix/pins/first"));
    assert!(remove_pins(&pins, id(3)).is_empty());
}

#[test]
fn toggles_one_direct_pin_without_touching_the_head_pin() {
    let pins = vec![symbolic("HEAD", MAIN, 1), symbolic("review/1", MAIN, 1)];
    let made = match toggle_pin(&pins, &names(&pins), id(1)).unwrap() {
        Toggle::Use(found) => found,
        Toggle::Remove(_) => panic!("there is no pin to remove"),
    };
    assert!(made.created);
    assert_eq!(made.pin.target, Target::Object(id(1)));
    let more = vec![symbolic("HEAD", MAIN, 1), made.pin.copy()];
    match toggle_pin(&more, &names(&more), id(1)).unwrap() {
        Toggle::Remove(edits) => assert_eq!(edits, vec![delete_pin_edit(&made.pin)]),
        Toggle::Use(_) => panic!("there is a pin to remove"),
    }
}

#[test]
fn explicitly_created_pins_have_independent_lifetimes() {
    let first = new_pin_name(id(1), &Vec::new()).unwrap();
    assert_eq!(text(first.as_bytes()), format!("refs/worktree/tix/pins/{}", &hex(1)[..8]));
    let second = new_pin_name(id(1), &vec![first.clone()]).unwrap();
    assert_eq!(text(second.as_bytes()), format!("refs/worktree/tix/pins/{}", &hex(1)[..9]));

    let mut taken = Vec::new();
    for _ in 0..35 {
        taken.push(new_pin_name(id(1), &taken).unwrap());
    }
    assert_eq!(text(taken[32].as_bytes()), format!("refs/worktree/tix/pins/{}", hex(1)));
    assert_eq!(text(taken[33].as_bytes()), format!("refs/worktree/tix/pins/{}2", hex(1)));
    assert_eq!(text(taken[34].as_bytes()), format!("refs/worktree/tix/pins/{}3", hex(1)));

    let pins = vec![direct("keep", 1)];
    let reused = create_or_reuse_pin(&pins, &names(&pins), Target::Object(id(1)), id(1)).unwrap();
    assert_eq!(reused, Pinned { pin: direct("keep", 1), created: false });
    assert!(cleanup_new_pin(&reused).is_empty());
    let made = create_or_reuse_pin(&pins, &names(&pins), Target::Object(id(2)), id(2)).unwrap();
    assert!(made.created);
    assert_eq!(cleanup_new_pin(&made), vec![delete_pin_edit(&made.pin)]);
}

#[test]
fn pins_are_labelled_without_their_prefix() {
    assert_eq!(text(&pin_label(&direct("keep", 1))), "pin:keep");
    let odd = Pin { name: name("refs/other/keep"), target: Target::Object(id(1)), id: id(1) };
    assert_eq!(text(&pin_label(&odd)), "pin:refs/other/keep");
    let broken = Pin {
        name: FullName::new(b"refs/worktree/tix/pins/\xff").unwrap(),
        target: Target::Object(id(1)),
        id: id(1),
    };
    assert_eq!(text(&pin_label(&broken)), "pin:\u{fffd}");
}

#[test]
fn branches_that_head_leaves_are_deleted_last() {
    let edits = deferred_deletions(&vec![(name(MAIN), id(1)), (name(TOPIC), id(2))]);
    assert_eq!(edits.len(), 2);
    assert_eq!(edits[1].name, name(TOPIC));
    match &edits[1].change {
        Change::Delete { expected, .. } => {
            assert_eq!(*expected, PreviousValue::MustExistAndMatch(Target::Object(id(2))))
        }
        Change::Update { .. } => panic!("the branch is deleted"),
    }
}

fn waypoint(low: u32, pending: bool, parent: Option<u32>) -> Waypoint {
    Waypoint { id: id(low), pending, parent: parent.map(id) }
}

#[test]
fn time_travel_materializes_only_the_pending_path_to_the_destination() {
    let history = vec![
        waypoint(5, true, Some(4)),
        waypoint(4, true, Some(3)),
        waypoint(3, true, Some(2)),
        waypoint(2, false, Some(1)),
    ];
    assert_eq!(pending_base(&history, id(4)).unwrap(), Some(id(3)));
    assert_eq!(pending_base(&history, id(5)).unwrap(), Some(id(3)));
    assert_eq!(pending_base(&history, id(2)).unwrap(), None);
    assert_eq!(pending_base(&history, id(1)), Err(TravelError::UnknownCommit));
    assert_eq!(pending_base(&vec![waypoint(1, true, None)], id(1)).unwrap(), Some(id(1)));
    assert_eq!(
        pending_base(&vec![waypoint(1, true, Some(1))], id(1)),
        Err(TravelError::EndlessHistory)
    );
}

#[test]
fn time_travel_reports_only_the_completed_destination_path() {
    let mut replay = Replay::new(id(2), id(9));
    assert_eq!(replay.note(id(1), true), Some(id(1)));
    assert_eq!(replay.note(id(2), true), Some(id(2)));
    assert_eq!(replay.note(id(3), false), None, "not on the way");
    let news = vec![Some(id(11)), Some(id(12)), Some(id(13))];
    replay.complete(Some(id(12)), Some(id(19)), &news).unwrap();
    assert_eq!((replay.selected, replay.head_id), (id(12), id(19)));
    assert_eq!(affected(&news).unwrap(), vec![id(11), id(12), id(13)]);
    assert_eq!(
        replay.note(id(12), true),
        Some(id(2)),
        "a second round reports the commits as they were at first"
    );
    assert_eq!(
        replay.complete(None, Some(id(19)), &vec![None]),
        Err(TravelError::DestinationLost)
    );
    let mut replay = Replay::new(id(2), id(9));
    assert_eq!(replay.complete(Some(id(2)), None, &Vec::new()), Err(TravelError::HeadLost));
    assert_eq!(affected(&vec![Some(id(1)), None]), Err(TravelError::RebasedCommitLost));
}

#[test]
fn time_travel_starts_from_a_commit_without_conflicts() {
    assert_eq!(check_start(Some(id(1)), false), Ok(id(1)));
    assert_eq!(check_start(None, false), Err(TravelError::UnbornHead));
    assert_eq!(check_start(Some(id(1)), true), Err(TravelError::IndexConflicts));
}

#[test]
fn review_state_is_stashed_only_when_crossing_its_tree_boundary() {
    assert!(keeps_worktree(Some(id(1)), None, true));
    assert!(keeps_worktree(Some(id(1)), Some(id(2)), true));
    assert!(!keeps_worktree(Some(id(1)), Some(id(1)), true));
    assert!(!keeps_worktree(Some(id(1)), None, false));
    assert!(!keeps_worktree(None, Some(id(1)), true));
    assert!(crosses_review_boundary(None, Some(id(1))));
    assert!(!crosses_review_boundary(None, None));
}

#[test]
fn what_is_kept_aside_is_reported() {
    let mut notice = None;
    append_notice(&mut notice, b"one".to_vec());
    append_notice(&mut notice, b"two".to_vec());
    assert_eq!(notice, Some(b"one; two".to_vec()));
    apply_review_stash(&mut notice, Kept::Remains(b"conflict".to_vec()));
    assert_eq!(notice, Some(b"one; two; review stash remains: conflict".to_vec()));
    apply_review_stash(&mut notice, Kept::Nothing);
    assert_eq!(notice, Some(b"one; two; review stash remains: conflict".to_vec()));
    assert_eq!(explain_failure(b"dirty", None), b"dirty");
    assert_eq!(
        explain_failure(b"dirty", Some(Ok(b"done".to_vec()))),
        b"source review stash restoration: done: dirty"
    );
    assert_eq!(
        explain_failure(b"dirty", Some(Err(b"locked".to_vec()))),
        b"source review stash could not be restored: locked: dirty"
    );
}

fn way(waypoints: Vec<Waypoint>) -> CurrentTravelEvent {
    TravelEvent::Way { waypoints, remerges: false }
}

fn change(branch: &str, old: u32, new: u32) -> RefChange<FullName> {
    RefChange {
        name: name(branch),
        before: State::Object(id(old)),
        after: State::Object(id(new)),
    }
}

#[test]
fn time_travel_out_of_a_review_goes_its_course() {
    let mut travel = CurrentTravel::new(id(5), id(2), true, Some(id(1)), Some(id(4)));
    assert_eq!(travel.action(), TravelAction::Inspect(id(5)));
    let first = way(vec![waypoint(5, true, Some(4)), waypoint(4, false, None)]);
    let rebase = TravelAction::Rebase { base: id(5), checkout: id(5) };
    assert_eq!(travel.advance(first), Ok(rebase), "pending rebases come first");
    assert_eq!(travel.note(id(5), true), Some(id(5)));
    let completed = TravelEvent::Completed {
        selected: Some(id(15)),
        head_id: Some(id(12)),
        news: vec![Some(id(15))],
        changes: vec![change(TOPIC, 5, 15)],
    };
    assert_eq!(travel.advance(completed), Ok(TravelAction::Inspect(id(15))));
    let clear = way(vec![waypoint(15, false, Some(4))]);
    assert_eq!(
        travel.advance(clear),
        Ok(TravelAction::InspectWorktree),
        "the worktree of the review is looked at once no rebase is pending"
    );
    assert_eq!(
        travel.advance(TravelEvent::Moved { notice: None, changes: Vec::new() }),
        Ok(TravelAction::InspectWorktree),
        "HEAD does not move before"
    );
    assert_eq!(
        travel.advance(TravelEvent::Worktree { dirty: true }),
        Ok(TravelAction::Keep(id(1)))
    );
    let aside = TravelEvent::PutAside { warning: Some(b"careful".to_vec()) };
    assert_eq!(
        travel.advance(aside),
        Ok(TravelAction::Move { selected: id(15), departure: Some(id(12)) }),
        "a detached HEAD leaves what took its place in the rebase"
    );
    let moved = TravelEvent::Moved {
        notice: Some(b"moved".to_vec()),
        changes: vec![change(MAIN, 12, 15)],
    };
    assert_eq!(travel.advance(moved), Ok(TravelAction::FindReview(id(4))));
    assert_eq!(
        travel.advance(TravelEvent::Found(Kept::Applied(b"restored".to_vec()))),
        Ok(TravelAction::FindCommit(id(15)))
    );
    assert_eq!(
        travel.advance(TravelEvent::Found(Kept::Unknown(b"locked".to_vec()))),
        Ok(TravelAction::Arrive)
    );
    assert_eq!(
        travel.notice,
        Some(b"moved; careful; restored; could not inspect the commit stash: locked".to_vec())
    );
    assert_eq!(travel.changes, vec![change(TOPIC, 5, 15), change(MAIN, 12, 15)]);
    assert_eq!(
        travel.advance(TravelEvent::Failed(b"late".to_vec())),
        Ok(TravelAction::Arrive),
        "what is over stays as it is"
    );
}

#[test]
fn time_travel_within_a_review_leaves_the_worktree_alone() {
    let mut travel = CurrentTravel::new(id(3), id(2), false, Some(id(1)), Some(id(1)));
    assert_eq!(
        travel.advance(way(vec![waypoint(3, false, None)])),
        Ok(TravelAction::Move { selected: id(3), departure: None }),
        "HEAD leaves what it is at"
    );
    assert_eq!(
        travel.advance(TravelEvent::Moved { notice: None, changes: Vec::new() }),
        Ok(TravelAction::FindCommit(id(3)))
    );
    assert_eq!(travel.advance(TravelEvent::Found(Kept::Nothing)), Ok(TravelAction::Arrive));
    assert_eq!((travel.notice, travel.leg), (None, Leg::Arrived));
}

#[test]
fn failed_time_travel_brings_the_worktree_back() {
    let start = || {
        let mut travel = CurrentTravel::new(id(3), id(2), false, Some(id(1)), None);
        travel.advance(way(vec![waypoint(3, false, None)])).unwrap();
        travel
    };
    let mut travel = start();
    assert_eq!(
        travel.advance(TravelEvent::Worktree { dirty: true }),
        Ok(TravelAction::Keep(id(1)))
    );
    travel.advance(TravelEvent::PutAside { warning: None }).unwrap();
    assert_eq!(
        travel.advance(TravelEvent::Failed(b"dirty".to_vec())),
        Ok(TravelAction::BringBack)
    );
    assert_eq!(
        travel.advance(TravelEvent::BroughtBack(Ok(b"done".to_vec()))),
        Ok(TravelAction::Fail)
    );
    assert_eq!(travel.notice, Some(b"source review stash restoration: done: dirty".to_vec()));

    let mut travel = start();
    assert_eq!(
        travel.advance(TravelEvent::Worktree { dirty: false }),
        Ok(TravelAction::Move { selected: id(3), departure: None })
    );
    assert_eq!(
        travel.advance(TravelEvent::Failed(b"dirty".to_vec())),
        Ok(TravelAction::Fail),
        "nothing was kept aside"
    );
    assert_eq!(travel.notice, Some(b"dirty".to_vec()));
}

#[test]
fn time_travel_ends_where_commits_are_lost_or_conflict() {
    let pending = || way(vec![waypoint(5, true, Some(4)), waypoint(4, false, None)]);
    let start = || {
        let mut travel = CurrentTravel::new(id(5), id(2), false, None, None);
        travel.advance(pending()).unwrap();
        travel.note(id(5), true);
        travel
    };
    let completed = |selected, head_id, news| TravelEvent::Completed {
        selected,
        head_id,
        news,
        changes: Vec::new(),
    };
    assert_eq!(
        start().advance(completed(None, Some(id(2)), vec![None])),
        Err(TravelError::DestinationLost)
    );
    assert_eq!(
        start().advance(completed(Some(id(5)), None, vec![None])),
        Err(TravelError::HeadLost)
    );
    assert_eq!(
        start().advance(completed(Some(id(5)), Some(id(2)), Vec::new())),
        Err(TravelError::RebasedCommitLost)
    );
    let mut travel = start();
    travel.advance(completed(Some(id(5)), Some(id(2)), vec![None])).unwrap();
    assert_eq!(
        travel.advance(pending()),
        Err(TravelError::RebasedCommitLost),
        "another rebase needs what was rebased before"
    );
    let mut travel = start();
    travel.advance(completed(Some(id(5)), Some(id(2)), vec![Some(id(5))])).unwrap();
    let again = TravelAction::Rebase { base: id(5), checkout: id(5) };
    assert_eq!(travel.advance(pending()), Ok(again));
    assert_eq!(travel.affected, vec![id(5)]);
    assert_eq!(travel.advance(TravelEvent::Conflicted), Ok(TravelAction::Conflict));
    let mut travel = CurrentTravel::new(id(5), id(2), false, None, None);
    assert_eq!(
        travel.advance(TravelEvent::Way {
            waypoints: vec![waypoint(5, false, None)],
            remerges: true,
        }),
        Ok(again),
        "an automatic merge is made again on the way"
    );
    assert_eq!(
        CurrentTravel::new(id(5), id(2), false, None, None)
            .advance(way(vec![waypoint(5, true, Some(5))])),
        Err(TravelError::EndlessHistory)
    );
}

#[test]
fn conflicts_are_ready_to_be_resolved() {
    assert_eq!(
        text(&accept_conflict(Some(b"returned to main".to_vec()), id(1))),
        "returned to main; ready to resolve conflicts"
    );
    assert_eq!(
        text(&accept_conflict(None, id(1))),
        format!("checked out {}; ready to resolve conflicts", &hex(1)[..7])
    );
}

#[test]
fn cancelled_reviews_lead_back() {
    let target = Target::Symbolic(name(MAIN));
    let review = name("refs/worktree/tix/pins/review/1");
    assert_eq!(find_return_reference(&review, &target), Some(name(MAIN)));
    assert_eq!(find_return_reference(&review, &Target::Object(id(1))), None);
    assert_eq!(find_return_reference(&name(TOPIC), &Target::Object(id(1))), Some(name(TOPIC)));
    assert_eq!(
        return_pin(&review, &target, id(1)),
        Some(Pin { name: review.clone(), target: Target::Symbolic(name(MAIN)), id: id(1) })
    );
    assert_eq!(return_pin(&name(TOPIC), &target, id(1)), None);
}
