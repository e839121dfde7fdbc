use gix_tix::bytes;
use gix_tix::history::{distinct, find_parents, CommitNode};
use gix_tix::ids::{contains_id, ChangeId, ObjectId};
use gix_tix::names::{quote, unquote, Category, FullName};
use gix_tix::plan::{
    copy_ids, copy_step, find_position, PlanCommit, PlanParent, PlanStep, RefDestination,
};
use gix_tix::refs::{contains_name, find_state, insert_name, insert_text, Reference, State};
use gix_tix::text::to_decimal;

fn id(number: u32) -> ObjectId {
    ObjectId { high: 0, low: number }
}

fn name(text: &str) -> FullName {
    FullName::new(text.as_bytes()).unwrap()
}

#[test]
fn object_ids_have_forty_hexadecimal_digits() {
    let hex = b"0123456789abcdef0123456789abcdef01234567";
    let id = ObjectId::from_hex(hex).unwrap();
    assert_eq!(id.high, 0x0123_4567_89ab_cdef_0123_4567_89ab_cdef);
    assert_eq!(id.low, 0x0123_4567);
    assert_eq!(id.to_hex(), hex);
    assert_eq!(
        ObjectId::from_hex(b"0123456789ABCDEF0123456789ABCDEF01234567"),
        Some(id),
        "both cases are read"
    );
    assert_eq!(ObjectId::from_hex(b"0123"), None);
    assert_eq!(ObjectId::from_hex(b"g123456789abcdef0123456789abcdef01234567"), None);
    assert_eq!(ObjectId::null().to_hex(), vec![b'0'; 40]);
}

#[test]
fn object_ids_are_ordered_by_their_bytes() {
    let later = ObjectId { high: 1, low: 0 };
    assert!(id(7).is_before(id(8)));
    assert!(!id(8).is_before(id(8)));
    assert!(id(9).is_before(later));
    assert!(!later.is_before(id(9)));
    assert!(contains_id(&[id(1), id(2)], id(2)));
    assert!(!contains_id(&[id(1), id(2)], id(3)));
}

#[test]
fn change_ids_are_written_with_the_last_letters() {
    let hex = b"0123456789abcdef0123456789abcdef01234567";
    let change = ChangeId { id: ObjectId::from_hex(hex).unwrap() };
    let reverse = b"zyxwvutsrqponmlkzyxwvutsrqponmlkzyxwvuts";
    assert_eq!(change.to_reverse_hex(), reverse);
    assert_eq!(change.to_reverse_hex_with_len(7), b"zyxwvut");
    assert_eq!(ChangeId::from_reverse_hex(reverse), Some(change));
    assert_eq!(ChangeId::from_reverse_hex(b"zyxw"), None);
    assert_eq!(ChangeId::from_reverse_hex(hex), None);
}

#[test]
fn names_are_validated_categorized_and_shortened() {
    assert!(FullName::new(b"refs/heads/a..b").is_none());
    assert!(FullName::new(b"refs/heads/").is_none());
    assert!(FullName::new(b"main").is_none());
    assert!(FullName::new(b"HEAD").is_some());
    for (text, category, short) in [
        ("refs/heads/feature/x", Category::LocalBranch, "feature/x"),
        ("refs/remotes/origin/main", Category::RemoteBranch, "origin/main"),
        ("refs/tags/v1", Category::Tag, "v1"),
        ("refs/notes/n", Category::Other, "notes/n"),
        ("HEAD", Category::Other, "HEAD"),
    ] {
        let full = name(text);
        assert_eq!(full.as_bytes(), text.as_bytes());
        assert_eq!(full.category(), category, "{text}");
        assert_eq!(full.shorten(), short.as_bytes(), "{text}");
    }
    assert!(name("refs/heads/a").same(&name("refs/heads/a")));
    assert!(!name("refs/heads/a").same(&name("refs/heads/b")));
}

#[test]
fn text_is_quoted_where_it_must_be() {
    assert_eq!(quote(b"plain"), b"plain");
    assert_eq!(unquote(b"plain rest"), Some((b"plain rest".to_vec(), 10)));
    assert_eq!(quote(b"a \"b\"\n"), b"\"a \\\"b\\\"\\n\"");
    assert_eq!(unquote(b"\"a \\\"b\\\"\\n\" rest"), Some((b"a \"b\"\n".to_vec(), 11)));
    assert_eq!(unquote(b"\"open"), None);
}

#[test]
fn bytes_are_searched_and_split() {
    assert_eq!(bytes::find(b"one two", b"two"), Some(4));
    assert_eq!(bytes::find(b"one two", b"three"), None);
    assert_eq!(bytes::find(b"one", b""), Some(0));
    assert_eq!(bytes::find_byte(b"a=b=c", b'='), Some(1));
    assert_eq!(bytes::split_once(b"a=b=c", b'='), Some((&b"a"[..], &b"b=c"[..])));
    assert_eq!(bytes::split_once(b"abc", b'='), None);
    assert_eq!(bytes::strip_prefix(b"refs/heads/a", b"refs/heads/"), Some(&b"a"[..]));
    assert_eq!(bytes::strip_prefix(b"a", b"refs/heads/"), None);
    assert!(bytes::starts_with(b"abc", b"ab") && !bytes::starts_with(b"a", b"ab"));
    assert!(bytes::ends_with(b"abc", b"bc") && !bytes::ends_with(b"c", b"bc"));
    assert!(bytes::equal(b"abc", b"abc") && !bytes::equal(b"abc", b"abd"));
    assert!(bytes::is_before(b"a", b"ab") && bytes::is_before(b"ab", b"b"));
    assert!(!bytes::is_before(b"b", b"b"));
    assert_eq!(bytes::joined(b"a", b"b"), b"ab");
    assert_eq!(bytes::head_of(b"abc", 2), b"ab");
    assert_eq!(bytes::tail_of(b"abc", 2), b"c");
}

#[test]
fn lines_and_words_are_taken_apart() {
    assert_eq!(bytes::strip_cr(b"line\r"), b"line");
    assert_eq!(bytes::strip_cr(b"line"), b"line");
    assert_eq!(bytes::trim(b" \ta b\n"), b"a b");
    assert_eq!(bytes::trim_start(b" a "), b"a ");
    assert_eq!(bytes::trim_end(b" a "), b" a");
    assert_eq!(bytes::first_word(b"  one two"), Some(&b"one"[..]));
    assert_eq!(bytes::first_word(b"  "), None);
    assert_eq!(bytes::split_space(b"one two three"), (&b"one"[..], &b"two three"[..]));
    assert_eq!(bytes::split_space(b"one"), (&b"one"[..], &b""[..]));
}

#[test]
fn numbers_are_written_in_decimal() {
    assert_eq!(to_decimal(0), b"0");
    assert_eq!(to_decimal(7), b"7");
    assert_eq!(to_decimal(1024), b"1024");
    assert_eq!(to_decimal(usize::MAX), usize::MAX.to_string().into_bytes());
}

#[test]
fn references_are_looked_up_and_inserted_in_order() {
    let references = vec![
        Reference { name: name("refs/heads/a"), state: State::Object(id(1)) },
        Reference { name: name("HEAD"), state: State::Symbolic(name("refs/heads/a")) },
    ];
    assert_eq!(find_state(&references, &name("refs/heads/a")), State::Object(id(1)));
    assert_eq!(find_state(&references, &name("HEAD")), State::Symbolic(name("refs/heads/a")));
    assert_eq!(find_state(&references, &name("refs/heads/b")), State::Missing);
    let mut names = Vec::new();
    for text in ["refs/heads/b", "refs/heads/c", "refs/heads/a"] {
        insert_name(&mut names, name(text));
    }
    assert_eq!(names, vec![name("refs/heads/a"), name("refs/heads/b"), name("refs/heads/c")]);
    assert!(contains_name(&names, &name("refs/heads/a")));
    assert!(!contains_name(&names, &name("refs/heads/d")));
    let mut texts = Vec::new();
    for text in ["b", "a", "c"] {
        insert_text(&mut texts, text.as_bytes().to_vec());
    }
    assert_eq!(texts, vec![b"a".to_vec(), b"b".to_vec(), b"c".to_vec()]);
    let state = State::Object(id(1));
    assert!(state.same(&state.copy()));
    assert!(!state.same(&State::Missing));
}

#[test]
fn commits_are_found_in_the_history() {
    let commits = vec![
        CommitNode { id: id(2), parents: vec![id(1)] },
        CommitNode { id: id(1), parents: Vec::new() },
    ];
    assert_eq!(find_parents(&commits, id(2)), Some(&vec![id(1)]));
    assert_eq!(find_parents(&commits, id(3)), None);
    assert!(distinct(&[id(1), id(2)]));
    assert!(!distinct(&[id(1), id(2), id(1)]));
}

#[test]
fn plans_name_the_steps_of_commits() {
    let steps = vec![
        PlanStep {
            parent: PlanParent::Existing(id(1)),
            commit: PlanCommit::Copy(id(2)),
            squash: Vec::new(),
        },
        PlanStep {
            parent: PlanParent::Step(0),
            commit: PlanCommit::Pick(id(2)),
            squash: vec![id(3)],
        },
    ];
    assert_eq!(find_position(&steps, id(2)), Some(1), "a copy is another commit");
    assert_eq!(find_position(&steps, id(4)), None);
    assert_eq!(copy_step(&steps[1]), steps[1]);
    assert_eq!(copy_ids(&[id(1), id(2)]), vec![id(1), id(2)]);
    assert_eq!(RefDestination::Step(1).placement(), Some(PlanParent::Step(1)));
    assert_eq!(RefDestination::Delete.placement(), None);
    assert_eq!(
        RefDestination::from_parent(PlanParent::Existing(id(1))),
        RefDestination::Existing(id(1))
    );
}
