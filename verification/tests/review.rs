use gix_tix::auto_merge::definition::Header;
use gix_tix::forget::{may_suspend, plan_forget, read_tree_command, refresh_command};
use gix_tix::ids::ObjectId;
use gix_tix::names::FullName;
use gix_tix::refs::{Reference, State};
use gix_tix::review::finish::{
    ensure_clean, find_return_name, is_dirty, plan_finish, Checkout, CurrentSite, Finish, Return,
    Site,
};
use gix_tix::review::identity::{
    deletions, is_review, next_reference, reference, return_pin_reference, return_to,
    review_number, stash_message, stash_reference, Deletion,
};
use gix_tix::review::start::{
    check_range, checkout_commands, plan_start, reference_command, remove_new_departure_pin,
};
use gix_tix::review::ReviewError;
use gix_tix::time_travel::pins::Pin;
use gix_tix::undo::changes::{Change, PreviousValue, Target};

fn id(low: u32) -> ObjectId {
    ObjectId { high: 0, low }
}

fn name(text: &str) -> FullName {
    FullName::new(text.as_bytes()).unwrap()
}

fn header(name: &str, value: &str) -> Header<Vec<u8>> {
    Header { name: name.as_bytes().to_vec(), value: value.as_bytes().to_vec() }
}

fn texts(words: &[Vec<u8>]) -> Vec<String> {
    words.iter().map(|word| String::from_utf8(word.clone()).unwrap()).collect()
}

fn hex(low: u32) -> String {
    String::from_utf8(id(low).to_hex()).unwrap()
}

fn at(name: FullName, state: State<FullName>) -> Reference<FullName> {
    Reference { name, state }
}

const REVIEW: &str = "refs/worktree/tix/review/1";
const STASH: &str = "refs/worktree/tix/review/stashes/1";
const PIN: &str = "refs/worktree/tix/pins/review/1";

fn review_headers() -> Vec<Header<Vec<u8>>> {
    vec![
        header("tix-rebase", "parent"),
        header("tix-rebase", "onto refs/worktree/tix/review/1"),
        header("tix-review-return-to", PIN),
    ]
}

#[test]
fn reviews_are_told_by_their_headers() {
    assert_eq!(reference(&review_headers()).unwrap(), Some(name(REVIEW)));
    assert!(is_review(&review_headers()));
    assert_eq!(reference(&Vec::new()).unwrap(), None);
    assert!(!is_review(&vec![header("tix-rebase", "parent")]));
    let unnumbered = vec![header("tix-rebase", "onto refs/heads/main")];
    assert_eq!(reference(&unnumbered).unwrap_err(), ReviewError::InvalidReview);
    assert!(!is_review(&unnumbered));
    assert_eq!(return_to(&review_headers()).unwrap(), Some(name(PIN)));
    assert_eq!(return_to(&Vec::new()).unwrap(), None);
    assert_eq!(
        return_to(&vec![header("tix-review-return-to", "no name")]).unwrap_err(),
        ReviewError::InvalidReturn
    );
}

#[test]
fn numbers_name_what_belongs_to_a_review() {
    assert_eq!(review_number(b"refs/worktree/tix/review/12"), Some(&b"12"[..]));
    assert_eq!(review_number(b"refs/worktree/tix/review/"), None);
    assert_eq!(review_number(STASH.as_bytes()), None);
    assert_eq!(stash_reference(REVIEW.as_bytes()).unwrap(), name(STASH));
    assert_eq!(return_pin_reference(REVIEW.as_bytes()).unwrap(), name(PIN));
    assert_eq!(stash_reference(b"refs/heads/main").unwrap_err(), ReviewError::NoNumber);

    let references = vec![
        at(name(STASH), State::Object(id(2))),
        at(name(REVIEW), State::Symbolic(name("refs/heads/main"))),
    ];
    assert_eq!(
        deletions(&references, &review_headers()).unwrap(),
        vec![
            Deletion { name: name(REVIEW), target: Target::Symbolic(name("refs/heads/main")) },
            Deletion { name: name(STASH), target: Target::Object(id(2)) },
        ]
    );
    assert_eq!(deletions(&references, &Vec::new()).unwrap(), Vec::new());
    assert_eq!(deletions(&Vec::new(), &review_headers()).unwrap(), Vec::new());
}

#[test]
fn the_next_review_takes_the_lowest_free_number() {
    let next = |taken: &[&str]| {
        next_reference(&taken.iter().map(|text| name(text)).collect()).unwrap()
    };
    assert_eq!(next(&[]), (name(REVIEW), name(PIN)));
    assert_eq!(
        next(&[REVIEW, "refs/worktree/tix/pins/review/2", "refs/heads/main"]),
        (name("refs/worktree/tix/review/3"), name("refs/worktree/tix/pins/review/3"))
    );
    assert_eq!(
        next(&["refs/worktree/tix/review/2"]),
        (name(REVIEW), name(PIN)),
        "a gap is filled"
    );
}

#[test]
fn started_reviews_remember_where_to_return() {
    let head = State::Symbolic(name("refs/heads/main"));
    let start = plan_start(&vec![name(REVIEW)], &head, Some(id(1))).unwrap();
    assert_eq!(start.name, name("refs/worktree/tix/review/2"));
    let pin = start.pin.unwrap();
    assert_eq!(pin.name, name("refs/worktree/tix/pins/review/2"));
    assert_eq!(pin.target, Target::Symbolic(name("refs/heads/main")));
    assert_eq!(pin.id, id(1));
    assert_eq!(
        start.headers,
        vec![
            header("tix-rebase", "onto refs/worktree/tix/review/2"),
            header("tix-review-return-to", "refs/worktree/tix/pins/review/2"),
        ]
    );
    assert_eq!(reference(&start.headers).unwrap(), Some(name("refs/worktree/tix/review/2")));
    assert_eq!(
        return_to(&start.headers).unwrap(),
        Some(name("refs/worktree/tix/pins/review/2"))
    );

    let detached = plan_start(&Vec::new(), &State::Object(id(1)), Some(id(1))).unwrap();
    assert_eq!(detached.pin.unwrap().target, Target::Object(id(1)));
    let unborn = plan_start(&Vec::new(), &head, None).unwrap();
    assert_eq!(unborn.pin, None);
    assert_eq!(unborn.headers.len(), 1);
}

#[test]
fn ranges_of_reviews_are_checked() {
    assert_eq!(check_range(id(2), id(1), true, false, false), Ok(()));
    assert_eq!(
        check_range(id(2), id(2), true, false, false),
        Err(ReviewError::BaseNotAncestor)
    );
    assert_eq!(
        check_range(id(2), id(1), false, false, false),
        Err(ReviewError::BaseNotAncestor)
    );
    assert_eq!(check_range(id(2), id(1), true, true, true), Err(ReviewError::TipPending));
    assert_eq!(check_range(id(2), id(1), true, false, true), Err(ReviewError::BasePending));
}

#[test]
fn reviews_are_checked_out_by_git() {
    assert_eq!(
        texts(&reference_command(&name(REVIEW), id(2))),
        ["update-ref", REVIEW, &hex(2)]
    );
    let commands = checkout_commands(id(2), id(3));
    assert_eq!(texts(&commands[0]), ["checkout", "--quiet", "--detach", &hex(2)]);
    assert_eq!(texts(&commands[1]), ["update-ref", "--no-deref", "HEAD", &hex(3), &hex(2)]);
    assert_eq!(texts(&commands[2]), ["read-tree", &hex(3)]);
    assert_eq!(commands.len(), 3);

    assert_eq!(remove_new_departure_pin(None), None);
    let pin = Pin { name: name(PIN), target: Target::Object(id(1)), id: id(1) };
    let edit = remove_new_departure_pin(Some(&pin)).unwrap();
    assert_eq!(edit.name, name(PIN));
    match edit.change {
        Change::Delete { expected, .. } => {
            assert_eq!(expected, PreviousValue::MustExistAndMatch(Target::Object(id(1))))
        }
        Change::Update { .. } => panic!("the pin is deleted"),
    }
}

fn site() -> CurrentSite {
    Site {
        head_descends: true,
        status: Vec::new(),
        headers: review_headers(),
        parent: Some(id(1)),
        tip: Some(id(2)),
        references: vec![
            at(name(REVIEW), State::Object(id(2))),
            at(name(PIN), State::Symbolic(name("refs/heads/main"))),
        ],
        fallback: None,
        returned: Some(Return { id: id(4), descends: true }),
        tip_pending: false,
        base_pending: false,
    }
}

#[test]
fn review_return_pin_survives_squashing_the_reviewed_tip() {
    assert_eq!(
        plan_finish(&site()).unwrap(),
        Finish::Apply {
            review: name(REVIEW),
            base: id(1),
            tip: id(2),
            delete_refs: vec![
                Deletion { name: name(REVIEW), target: Target::Object(id(2)) },
                Deletion {
                    name: name(PIN),
                    target: Target::Symbolic(name("refs/heads/main")),
                },
            ],
            checkout: Some(Checkout {
                id: id(4),
                reference: Some(name("refs/heads/main")),
            }),
        },
        "the pin leads back to the branch wherever that is now"
    );
}

#[test]
fn finishing_a_review_is_checked() {
    let fails = |change: fn(&mut CurrentSite)| {
        let mut site = site();
        change(&mut site);
        plan_finish(&site).map(|_| ()).unwrap_err()
    };
    assert_eq!(fails(|site| site.head_descends = false), ReviewError::HeadElsewhere);
    assert_eq!(fails(|site| site.status = b"?? file\n".to_vec()), ReviewError::Dirty);
    assert_eq!(fails(|site| site.headers = Vec::new()), ReviewError::NotReview);
    assert_eq!(fails(|site| site.parent = None), ReviewError::NoBase);
    assert_eq!(fails(|site| site.references = Vec::new()), ReviewError::MissingReview);
    assert_eq!(fails(|site| site.tip = None), ReviewError::UnresolvedReview);
    assert_eq!(
        fails(|site| site.fallback = Some(Return { id: id(5), descends: false })),
        ReviewError::FallbackElsewhere
    );
    assert_eq!(fails(|site| site.returned = None), ReviewError::UnresolvedReturn);
    assert_eq!(
        fails(|site| site.returned = Some(Return { id: id(5), descends: false })),
        ReviewError::ReturnElsewhere
    );
    assert_eq!(fails(|site| site.tip_pending = true), ReviewError::TipPending);
    assert_eq!(fails(|site| site.base_pending = true), ReviewError::BasePending);
    assert!(is_dirty(b" M file\n"));
    assert!(!is_dirty(b""));
    assert_eq!(ensure_clean(b""), Ok(()));
    assert_eq!(ensure_clean(b" M file\n"), Err(ReviewError::Dirty));
}

#[test]
fn a_return_that_is_gone_is_chosen_anew() {
    let mut gone = site();
    gone.references.pop();
    gone.returned = None;
    assert_eq!(plan_finish(&gone).unwrap(), Finish::SelectReturn { tip: id(2) });
    gone.fallback = Some(Return { id: id(6), descends: true });
    match plan_finish(&gone).unwrap() {
        Finish::Apply { checkout, delete_refs, .. } => {
            assert_eq!(checkout, Some(Checkout { id: id(6), reference: None }));
            assert_eq!(delete_refs.len(), 1);
        }
        Finish::SelectReturn { .. } => panic!("a commit was chosen"),
    }
    assert_eq!(
        find_return_name(&Vec::new(), &State::Symbolic(name("refs/heads/main"))).unwrap(),
        Some(name("refs/heads/main")),
        "the reference of the review may lead back by itself"
    );
    assert_eq!(find_return_name(&Vec::new(), &State::Object(id(1))).unwrap(), None);
}

#[test]
fn forgetting_a_review_returns_from_it() {
    let references = site().references;
    let at_head = plan_forget(&references, &review_headers(), true).unwrap();
    assert_eq!(at_head.review_return, Some(name(PIN)));
    assert_eq!(at_head.deletions.len(), 1);
    assert!(!may_suspend(&at_head));
    let elsewhere = plan_forget(&references, &review_headers(), false).unwrap();
    assert_eq!(elsewhere.review_return, None);
    assert!(may_suspend(&elsewhere));
    let ordinary = plan_forget(&references, &Vec::new(), true).unwrap();
    assert_eq!(ordinary.review_return, None);
    assert!(ordinary.deletions.is_empty());

    let unnamed = vec![header("tix-rebase", "onto refs/worktree/tix/review/1")];
    let legacy = vec![at(name(REVIEW), State::Symbolic(name("refs/heads/main")))];
    assert_eq!(
        plan_forget(&legacy, &unnamed, true).unwrap().review_return,
        Some(name("refs/heads/main"))
    );
    let stash_only = vec![at(name(STASH), State::Object(id(1)))];
    assert_eq!(
        plan_forget(&stash_only, &unnamed, true).map(|_| ()).unwrap_err(),
        ReviewError::MissingReview
    );
}

#[test]
fn worktrees_move_between_trees_by_git() {
    assert_eq!(texts(&refresh_command()), ["update-index", "-q", "--refresh"]);
    assert_eq!(
        texts(&read_tree_command(true, id(1), id(2))),
        ["read-tree", "-n", "-m", "-u", &hex(1), &hex(2)]
    );
    assert_eq!(
        texts(&read_tree_command(false, id(1), id(2))),
        ["read-tree", "-m", "-u", &hex(1), &hex(2)]
    );
}

#[test]
fn kept_worktrees_are_named_after_their_review() {
    assert_eq!(stash_message(&name(REVIEW)), b"tix review worktree/tix/review/1");
}
