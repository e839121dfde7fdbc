//! The references of a rebase todo: how they are shown, and which reference a shown name
//! means.
use vstd::prelude::*;
use vstd::string::StringSliceAdditionalSpecFns;
use crate::bytes;
use crate::ids::ObjectId;
use crate::names::{category_of, short_name, valid_name, Category, FullName};
use crate::names::{PIN_PREFIX, REVIEW_PREFIX};
use crate::plan::{viewed, viewed_push, ExpectedRef};
use crate::refs::{find_state, state_of, Reference, State};
use crate::todo::TodoError;
use crate::undo::is_queue_ref;

verus! {

/// How many of the first `end` references are editable and have the given short name.
pub open spec fn sharing(refs: Seq<ExpectedRef<Seq<u8>>>, short: Seq<u8>, end: int) -> nat
    decreases end,
{
    if end <= 0 || end > refs.len() {
        0
    } else {
        sharing(refs, short, end - 1) + (if refs[end - 1].editable && short_name(
            refs[end - 1].name,
        ) == short {
            1nat
        } else {
            0nat
        })
    }
}

/// How a reference is shown: by its short name, unless several editable references share it.
pub open spec fn display_name(name: Seq<u8>, refs: Seq<ExpectedRef<Seq<u8>>>) -> Seq<u8> {
    if sharing(refs, short_name(name), refs.len() as int) > 1 {
        name
    } else {
        short_name(name)
    }
}

/// How a reference is shown.
pub fn ref_display_name(name: &FullName, refs: &Vec<ExpectedRef<FullName>>) -> (r: Vec<u8>)
    ensures
        r@ == display_name(name@, viewed(refs@)),
{
    let ghost all = viewed(refs@);
    let short = name.shorten();
    let mut count: usize = 0;
    let mut i: usize = 0;
    while i < refs.len()
        invariant
            all == viewed(refs@),
            short@ == short_name(name@),
            i <= refs@.len(),
            count <= i,
            count == sharing(all, short@, i as int),
        decreases refs.len() - i,
    {
        if refs[i].editable && bytes::equal(refs[i].name.shorten().as_slice(), short.as_slice()) {
            count = count + 1;
        }
        i = i + 1;
    }
    if count > 1 {
        bytes::copied(name.as_bytes())
    } else {
        short
    }
}

/// The first editable reference, at or after `from`, that is shown as `input`.
pub open spec fn shown_from(
    refs: Seq<ExpectedRef<Seq<u8>>>,
    input: Seq<u8>,
    from: int,
) -> Option<int>
    decreases refs.len() - from,
{
    if from < 0 || from >= refs.len() {
        None
    } else if refs[from].editable && display_name(refs[from].name, refs) == input {
        Some(from)
    } else {
        shown_from(refs, input, from + 1)
    }
}

fn find_shown(refs: &Vec<ExpectedRef<FullName>>, input: &[u8], from: usize) -> (r: Option<usize>)
    requires
        from <= refs@.len(),
    ensures
        bytes::index_of(r) == shown_from(viewed(refs@), input@, from as int),
        r matches Some(i) ==> i < refs@.len(),
{
    let mut i: usize = from;
    while i < refs.len()
        invariant
            from <= i <= refs@.len(),
            shown_from(viewed(refs@), input@, from as int) == shown_from(
                viewed(refs@),
                input@,
                i as int,
            ),
        decreases refs.len() - i,
    {
        if refs[i].editable && bytes::equal(
            ref_display_name(&refs[i].name, refs).as_slice(),
            input,
        ) {
            return Some(i);
        }
        i = i + 1;
    }
    None
}

/// The full name that an unknown name stands for: a branch, unless it starts with `refs/`.
pub open spec fn full_name_of(input: Seq<u8>) -> Seq<u8> {
    if bytes::has_prefix(input, "refs/".spec_bytes()) {
        input
    } else {
        "refs/heads/".spec_bytes() + input
    }
}

/// Whether a todo may not place references of the given name.
pub open spec fn reserved(name: Seq<u8>, stash_prefix: Seq<u8>) -> bool {
    ||| bytes::has_prefix(name, PIN_PREFIX.spec_bytes())
    ||| bytes::has_prefix(name, stash_prefix)
    ||| bytes::has_prefix(name, REVIEW_PREFIX.spec_bytes())
    ||| crate::undo::queue_ref(name)
    ||| category_of(name) == Category::Tag
    ||| category_of(name) == Category::RemoteBranch
}

/// A reference that a todo places without having captured it.
pub open spec fn imported(name: Seq<u8>, old: Option<ObjectId>, head: ObjectId) -> ExpectedRef<
    Seq<u8>,
> {
    ExpectedRef {
        name,
        old,
        target: match old {
            Some(id) => id,
            None => head,
        },
        new: old,
        follows_tip: false,
        editable: true,
        placement: None,
    }
}

/// Whether a reference of the given name is captured.
pub open spec fn captured(refs: Seq<ExpectedRef<Seq<u8>>>, name: Seq<u8>) -> bool {
    exists|i: int| 0 <= i < refs.len() && (#[trigger] refs[i]).name == name
}

/// The reference that a shown name means, with the references captured once it is known:
/// the editable one that is shown so, or one outside the captured references, which must be
/// in a namespace that may be edited and must not be symbolic.
pub open spec fn resolved_name(
    refs: Seq<ExpectedRef<Seq<u8>>>,
    input: Seq<u8>,
    known: Seq<Reference<Seq<u8>>>,
    stash_prefix: Seq<u8>,
    head: ObjectId,
) -> Result<(Seq<u8>, Seq<ExpectedRef<Seq<u8>>>), TodoError> {
    match shown_from(refs, input, 0) {
        Some(i) => if shown_from(refs, input, i + 1) is Some {
            Err(TodoError::AmbiguousName)
        } else {
            Ok((refs[i].name, refs))
        },
        None => {
            let name = full_name_of(input);
            if !valid_name(name) {
                Err(TodoError::InvalidName)
            } else if reserved(name, stash_prefix) {
                Err(TodoError::ReservedNamespace)
            } else if captured(refs, name) {
                Err(TodoError::HiddenReference)
            } else {
                match state_of(known, name) {
                    State::Missing => Ok((name, refs.push(imported(name, None, head)))),
                    State::Object(id) => Ok((name, refs.push(imported(name, Some(id), head)))),
                    State::Symbolic(_) => Err(TodoError::SymbolicReference),
                }
            }
        },
    }
}

fn is_captured(refs: &Vec<ExpectedRef<FullName>>, name: &FullName) -> (r: bool)
    ensures
        r == captured(viewed(refs@), name@),
{
    let mut i: usize = 0;
    while i < refs.len()
        invariant
            i <= refs@.len(),
            forall|j: int| 0 <= j < i ==> (#[trigger] viewed(refs@)[j]).name != name@,
        decreases refs.len() - i,
    {
        if refs[i].name.same(name) {
            assert(viewed(refs@)[i as int].name == name@);
            return true;
        }
        i = i + 1;
    }
    false
}

/// Finds the reference that a shown name means, and captures one that was not.
pub fn resolve_ref_name(
    refs: &mut Vec<ExpectedRef<FullName>>,
    input: &[u8],
    known: &Vec<Reference<FullName>>,
    stash_prefix: &[u8],
    head: ObjectId,
) -> (r: Result<FullName, TodoError>)
    ensures
        match r {
            Ok(name) => resolved_name(
                viewed(old(refs)@),
                input@,
                viewed(known@),
                stash_prefix@,
                head,
            ) == Ok::<_, TodoError>((name@, viewed(final(refs)@))),
            Err(err) => resolved_name(
                viewed(old(refs)@),
                input@,
                viewed(known@),
                stash_prefix@,
                head,
            ) == Err::<(Seq<u8>, Seq<ExpectedRef<Seq<u8>>>), _>(err),
        },
        r is Err ==> final(refs)@ == old(refs)@,
        r matches Ok(name) ==> (unshown(viewed(old(refs)@), input@) && !bytes::has_prefix(
            input@,
            "refs/".spec_bytes(),
        ) ==> category_of(name@) == Category::LocalBranch && short_name(name@) == input@),
{
    let ghost before = viewed(refs@);
    proof {
        shown_is_among(before, input@, 0);
    }
    if let Some(i) = find_shown(refs, input, 0) {
        let total: usize = refs.len();
        if find_shown(refs, input, i + 1).is_some() {
            return Err(TodoError::AmbiguousName);
        }
        return Ok(refs[i].name.clone());
    }
    let full = if bytes::starts_with(input, "refs/".as_bytes()) {
        bytes::copied(input)
    } else {
        bytes::joined("refs/heads/".as_bytes(), input)
    };
    let name = match FullName::new(full.as_slice()) {
        Some(name) => name,
        None => return Err(TodoError::InvalidName),
    };
    let category = name.category();
    if bytes::starts_with(name.as_bytes(), PIN_PREFIX.as_bytes()) || bytes::starts_with(
        name.as_bytes(),
        stash_prefix,
    ) || bytes::starts_with(name.as_bytes(), REVIEW_PREFIX.as_bytes()) || is_queue_ref(
        name.as_bytes(),
    ) || category == Category::Tag || category == Category::RemoteBranch {
        return Err(TodoError::ReservedNamespace);
    }
    if is_captured(refs, &name) {
        return Err(TodoError::HiddenReference);
    }
    let _short = name.shorten();
    proof {
        if !bytes::has_prefix(input@, "refs/".spec_bytes()) {
            branch_names_are_short(input@);
        }
    }
    let old_id = match find_state(known, &name) {
        State::Missing => None,
        State::Object(id) => Some(id),
        State::Symbolic(_) => return Err(TodoError::SymbolicReference),
    };
    let target = match old_id {
        Some(id) => id,
        None => head,
    };
    let reference = ExpectedRef {
        name: name.clone(),
        old: old_id,
        target,
        new: old_id,
        follows_tip: false,
        editable: true,
        placement: None,
    };
    proof {
        viewed_push(refs@, reference);
    }
    refs.push(reference);
    Ok(name)
}

/// Whether no editable reference is shown under a name.
pub open spec fn unshown(refs: Seq<ExpectedRef<Seq<u8>>>, input: Seq<u8>) -> bool {
    forall|i: int|
        0 <= i < refs.len() && (#[trigger] refs[i]).editable ==> display_name(refs[i].name, refs)
            != input
}

proof fn shown_is_among(refs: Seq<ExpectedRef<Seq<u8>>>, input: Seq<u8>, from: int)
    requires
        0 <= from,
    ensures
        shown_from(refs, input, from) matches Some(i) ==> from <= i < refs.len() && refs[i].editable
            && display_name(refs[i].name, refs) == input && forall|j: int|
            from <= j < i && (#[trigger] refs[j]).editable ==> display_name(refs[j].name, refs)
                != input,
        shown_from(refs, input, from) is None ==> forall|j: int|
            from <= j < refs.len() && (#[trigger] refs[j]).editable ==> display_name(
                refs[j].name,
                refs,
            ) != input,
    decreases refs.len() - from,
{
    if from < refs.len() && !(refs[from].editable && display_name(refs[from].name, refs) == input) {
        shown_is_among(refs, input, from + 1);
    }
}

proof fn prefix_bytes()
    ensures
        "refs/".spec_bytes() == seq![114u8, 101, 102, 115, 47],
        "refs/heads/".spec_bytes() == seq![114u8, 101, 102, 115, 47, 104, 101, 97, 100, 115, 47],
        "refs/tags/".spec_bytes() == seq![114u8, 101, 102, 115, 47, 116, 97, 103, 115, 47],
{
    broadcast use vstd::string::is_ascii_spec_bytes;

    reveal_strlit("refs/");
    assert(vstd::string::is_ascii("refs/"));
    assert("refs/".spec_bytes() =~= seq![114u8, 101, 102, 115, 47]);
    reveal_strlit("refs/heads/");
    assert(vstd::string::is_ascii("refs/heads/"));
    assert("refs/heads/".spec_bytes() =~= seq![
        114u8, 101, 102, 115, 47, 104, 101, 97, 100, 115, 47,
    ]);
    reveal_strlit("refs/tags/");
    assert(vstd::string::is_ascii("refs/tags/"));
    assert("refs/tags/".spec_bytes() =~= seq![114u8, 101, 102, 115, 47, 116, 97, 103, 115, 47]);
}

proof fn branch_names_are_short(input: Seq<u8>)
    requires
        !bytes::has_prefix(input, "refs/".spec_bytes()),
    ensures
        category_of(full_name_of(input)) == Category::LocalBranch,
        full_name_of(input).skip("refs/heads/".spec_bytes().len() as int) == input,
{
    prefix_bytes();
    let name = full_name_of(input);
    let prefix = "refs/heads/".spec_bytes();
    assert(name.take(11) == prefix);
    assert(name.skip(11) == input);
    if bytes::has_prefix(name, "refs/tags/".spec_bytes()) {
        assert(name.take(10)[5] == name[5]);
        assert(name[5] == prefix[5]);
    }
}

/// A name that nothing captured is shown under, and that is no full name, is that of a local branch: the
/// reference is called `refs/heads/` and what was typed. A full name is taken as it is. Either way the
/// reference was not captured before.
pub proof fn typed_names_are_branches(
    refs: Seq<ExpectedRef<Seq<u8>>>,
    input: Seq<u8>,
    known: Seq<Reference<Seq<u8>>>,
    stash_prefix: Seq<u8>,
    head: ObjectId,
)
    requires
        unshown(refs, input),
        resolved_name(refs, input, known, stash_prefix, head) is Ok,
    ensures
        ({
            let (name, next) = resolved_name(refs, input, known, stash_prefix, head)->Ok_0;
            &&& valid_name(name)
            &&& !bytes::has_prefix(input, "refs/".spec_bytes()) ==> category_of(name)
                == Category::LocalBranch && name.skip("refs/heads/".spec_bytes().len() as int)
                == input
            &&& bytes::has_prefix(input, "refs/".spec_bytes()) ==> name == input
            &&& forall|i: int| 0 <= i < refs.len() ==> (#[trigger] refs[i]).name != name
            &&& next.len() == refs.len() + 1
            &&& next.take(refs.len() as int) == refs
            &&& next.last().name == name
        }),
{
    shown_is_among(refs, input, 0);
    if !bytes::has_prefix(input, "refs/".spec_bytes()) {
        branch_names_are_short(input);
    }
    let (name, next) = resolved_name(refs, input, known, stash_prefix, head)->Ok_0;
    assert(next.take(refs.len() as int) == refs);
}

/// A reference that is captured once it is named is expected to hold what it holds now: it moves from there,
/// or is created at HEAD if there is none. It can be edited and follows nothing, and nothing places it yet.
/// References that todos may not place are never captured: tags, remote-tracking branches, pins, stashes,
/// reviews and the queue of undo.
pub proof fn typed_references_hold_what_they_held(
    refs: Seq<ExpectedRef<Seq<u8>>>,
    input: Seq<u8>,
    known: Seq<Reference<Seq<u8>>>,
    stash_prefix: Seq<u8>,
    head: ObjectId,
)
    requires
        unshown(refs, input),
        resolved_name(refs, input, known, stash_prefix, head) is Ok,
    ensures
        ({
            let (name, next) = resolved_name(refs, input, known, stash_prefix, head)->Ok_0;
            let reference = next.last();
            &&& reference.old matches Some(id) ==> state_of(known, name) == State::<Seq<u8>>::Object(id)
                && reference.target == id
            &&& reference.old is None ==> state_of(known, name) == State::<Seq<u8>>::Missing
                && reference.target == head
            &&& reference.new == reference.old
            &&& reference.editable && !reference.follows_tip && reference.placement is None
            &&& !bytes::has_prefix(name, "refs/tags/".spec_bytes())
            &&& !bytes::has_prefix(name, PIN_PREFIX.spec_bytes())
            &&& !bytes::has_prefix(name, REVIEW_PREFIX.spec_bytes())
            &&& !bytes::has_prefix(name, stash_prefix)
            &&& category_of(name) != Category::RemoteBranch
            &&& name != crate::undo::TIP_REF.spec_bytes()
            &&& name != crate::undo::CURSOR_REF.spec_bytes()
        }),
{
    shown_is_among(refs, input, 0);
}

/// A name that one editable reference alone is shown under means that reference, and nothing more is
/// captured. One that several are shown under means none of them.
pub proof fn shown_names_mean_what_shows_them(
    refs: Seq<ExpectedRef<Seq<u8>>>,
    at: int,
    known: Seq<Reference<Seq<u8>>>,
    stash_prefix: Seq<u8>,
    head: ObjectId,
)
    requires
        0 <= at < refs.len(),
        refs[at].editable,
    ensures
        ({
            let input = display_name(refs[at].name, refs);
            let alone = forall|i: int|
                0 <= i < refs.len() && i != at && (#[trigger] refs[i]).editable ==> display_name(
                    refs[i].name,
                    refs,
                ) != input;
            &&& alone ==> resolved_name(refs, input, known, stash_prefix, head) == Ok::<_, TodoError>(
                (refs[at].name, refs),
            )
            &&& !alone ==> resolved_name(refs, input, known, stash_prefix, head) is Err
        }),
{
    let input = display_name(refs[at].name, refs);
    shown_is_among(refs, input, 0);
    let first = shown_from(refs, input, 0);
    if let Some(i) = first {
        shown_is_among(refs, input, i + 1);
    }
}

/// What todos cannot place is refused, whatever else holds: names that are not valid, references of others,
/// references that are captured but not shown for editing, and symbolic ones.
pub proof fn unplaceable_names_are_refused(
    refs: Seq<ExpectedRef<Seq<u8>>>,
    name: Seq<u8>,
    known: Seq<Reference<Seq<u8>>>,
    stash_prefix: Seq<u8>,
    head: ObjectId,
)
    requires
        unshown(refs, name),
        bytes::has_prefix(name, "refs/".spec_bytes()),
        ({
            ||| !valid_name(name)
            ||| bytes::has_prefix(name, "refs/tags/".spec_bytes())
            ||| category_of(name) == Category::RemoteBranch
            ||| bytes::has_prefix(name, PIN_PREFIX.spec_bytes())
            ||| bytes::has_prefix(name, REVIEW_PREFIX.spec_bytes())
            ||| bytes::has_prefix(name, stash_prefix)
            ||| name == crate::undo::TIP_REF.spec_bytes()
            ||| name == crate::undo::CURSOR_REF.spec_bytes()
            ||| state_of(known, name) is Symbolic
            ||| exists|i: int| 0 <= i < refs.len() && (#[trigger] refs[i]).name == name
        }),
    ensures
        resolved_name(refs, name, known, stash_prefix, head) is Err,
{
    shown_is_among(refs, name, 0);
}

/// Any other name that is typed is placed: success is owed wherever nothing stands against it.
pub proof fn other_names_are_placed(
    refs: Seq<ExpectedRef<Seq<u8>>>,
    input: Seq<u8>,
    known: Seq<Reference<Seq<u8>>>,
    stash_prefix: Seq<u8>,
    head: ObjectId,
)
    requires
        unshown(refs, input),
        !bytes::has_prefix(input, "refs/".spec_bytes()),
        valid_name("refs/heads/".spec_bytes() + input),
        !bytes::has_prefix("refs/heads/".spec_bytes() + input, stash_prefix),
        !(state_of(known, "refs/heads/".spec_bytes() + input) is Symbolic),
        forall|i: int|
            0 <= i < refs.len() ==> (#[trigger] refs[i]).name != "refs/heads/".spec_bytes() + input,
    ensures
        resolved_name(refs, input, known, stash_prefix, head) is Ok,
{
    shown_is_among(refs, input, 0);
    branch_names_are_short(input);
    let name = "refs/heads/".spec_bytes() + input;
    worktree_names_are_no_branches(name);
}

proof fn worktree_names_are_no_branches(name: Seq<u8>)
    requires
        category_of(name) == Category::LocalBranch,
    ensures
        !bytes::has_prefix(name, PIN_PREFIX.spec_bytes()),
        !bytes::has_prefix(name, REVIEW_PREFIX.spec_bytes()),
        !crate::undo::queue_ref(name),
{
    broadcast use vstd::string::is_ascii_spec_bytes;

    prefix_bytes();
    reveal_strlit("refs/worktree/tix/pins/");
    assert(vstd::string::is_ascii("refs/worktree/tix/pins/"));
    assert(PIN_PREFIX.spec_bytes()[5] == 119);
    reveal_strlit("refs/worktree/tix/review/");
    assert(vstd::string::is_ascii("refs/worktree/tix/review/"));
    assert(REVIEW_PREFIX.spec_bytes()[5] == 119);
    reveal_strlit("refs/worktree/tix/undo");
    assert(vstd::string::is_ascii("refs/worktree/tix/undo"));
    assert(crate::undo::TIP_REF.spec_bytes()[5] == 119);
    reveal_strlit("refs/worktree/tix/undo-cursor");
    assert(vstd::string::is_ascii("refs/worktree/tix/undo-cursor"));
    assert(crate::undo::CURSOR_REF.spec_bytes()[5] == 119);
    assert(name.take(11)[5] == 104);
    assert(name[5] == 104);
    if bytes::has_prefix(name, PIN_PREFIX.spec_bytes()) {
        assert(name.take(PIN_PREFIX.spec_bytes().len() as int)[5] == 119);
    }
    if bytes::has_prefix(name, REVIEW_PREFIX.spec_bytes()) {
        assert(name.take(REVIEW_PREFIX.spec_bytes().len() as int)[5] == 119);
    }
}

} // verus!
