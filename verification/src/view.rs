//! The revisions that history is loaded from, and documents that come back from an editor.
use vstd::prelude::*;
use vstd::string::StringSliceAdditionalSpecFns;
use crate::bytes;
use crate::bytes::has_prefix;
use crate::names::{FullName, REVIEW_STASH_PREFIX};
use crate::plan::{viewed, viewed_push};
use crate::refs::{Reference, State};
use crate::undo::worktrees::HEAD;
use crate::undo::{is_queue_ref, queue_ref};

verus! {

/// A reference, and whether the object that it holds is a commit.
#[derive(PartialEq, Eq, Debug)]
pub struct Tip<N> {
    pub reference: Reference<N>,
    pub commit: bool,
}

impl<N: View> View for Tip<N> {
    type V = Tip<N::V>;

    open spec fn view(&self) -> Tip<N::V> {
        Tip { reference: self.reference@, commit: self.commit }
    }
}

/// Whether history is loaded from a reference: it holds a commit itself, and it is neither HEAD nor one
/// that keeps worktrees, which are below `stashes` and below the prefix for reviews, or steps to undo.
pub open spec fn is_loaded(tip: Tip<Seq<u8>>, stashes: Seq<u8>) -> bool {
    let name = tip.reference.name;
    &&& !has_prefix(name, stashes)
    &&& !has_prefix(name, REVIEW_STASH_PREFIX.spec_bytes())
    &&& !queue_ref(name)
    &&& tip.reference.state is Object
    &&& name != HEAD.spec_bytes()
    &&& tip.commit
}

/// The references that history is loaded from.
pub open spec fn loaded_from(tips: Seq<Tip<Seq<u8>>>, stashes: Seq<u8>) -> Seq<Seq<u8>>
    decreases tips.len(),
{
    if tips.len() == 0 {
        Seq::empty()
    } else {
        let names = loaded_from(tips.drop_last(), stashes);
        if is_loaded(tips.last(), stashes) {
            names.push(tips.last().reference.name)
        } else {
            names
        }
    }
}

/// The revisions that history is loaded from: the references, and HEAD if it is on none.
pub open spec fn revisions_of(tips: Seq<Tip<Seq<u8>>>, stashes: Seq<u8>, detached: bool) -> Seq<
    Seq<u8>,
> {
    let names = loaded_from(tips, stashes);
    if detached {
        names.push(HEAD.spec_bytes())
    } else {
        names
    }
}

fn may_load(tip: &Tip<FullName>, stashes: &[u8]) -> (r: bool)
    ensures
        r == is_loaded(tip@, stashes@),
{
    let name = tip.reference.name.as_bytes();
    let direct = match &tip.reference.state {
        State::Object(_) => true,
        _ => false,
    };
    !bytes::starts_with(name, stashes) && !bytes::starts_with(name, REVIEW_STASH_PREFIX.as_bytes())
        && !is_queue_ref(name) && direct && !bytes::equal(name, HEAD.as_bytes()) && tip.commit
}

/// The revisions that history is loaded from. `stashes` is the prefix of references that keep worktrees,
/// and `detached` is whether HEAD is on no reference.
pub fn revisions(tips: &Vec<Tip<FullName>>, stashes: &[u8], detached: bool) -> (r: Vec<Vec<u8>>)
    ensures
        viewed(r@) == revisions_of(viewed(tips@), stashes@, detached),
{
    let ghost all = viewed(tips@);
    let mut names: Vec<Vec<u8>> = Vec::new();
    let total: usize = tips.len();
    let mut at: usize = 0;
    assert(all.take(0) == Seq::<Tip<Seq<u8>>>::empty());
    assert(viewed(names@) == loaded_from(all.take(0), stashes@));
    while at < total
        invariant
            at <= total,
            total == tips@.len(),
            all == viewed(tips@),
            viewed(names@) == loaded_from(all.take(at as int), stashes@),
        decreases total - at,
    {
        assert(all.take(at as int + 1).drop_last() == all.take(at as int));
        assert(all[at as int] == tips@[at as int]@);
        if may_load(&tips[at], stashes) {
            let name = bytes::copied(tips[at].reference.name.as_bytes());
            proof {
                viewed_push(names@, name);
            }
            names.push(name);
        }
        at = at + 1;
    }
    assert(all.take(total as int) == all);
    if detached {
        let name = bytes::copied(HEAD.as_bytes());
        proof {
            viewed_push(names@, name);
        }
        names.push(name);
    }
    names
}

/// A document that came back from an editor, unless it is as it was.
pub fn edited_document(document: &[u8], edited: Vec<u8>) -> (r: Option<Vec<u8>>)
    ensures
        match r {
            Some(text) => text == edited && edited@ != document@,
            None => edited@ == document@,
        },
{
    if bytes::equal(edited.as_slice(), document) {
        None
    } else {
        Some(edited)
    }
}

/// What is loaded into a view are the references that point at commits, but HEAD, stashes, the stashes of
/// reviews and the queue of undo; and HEAD behind them if it is detached.
pub proof fn views_hold_the_tips(
    tips: Seq<Tip<Seq<u8>>>,
    stashes: Seq<u8>,
    detached: bool,
    name: Seq<u8>,
)
    ensures
        revisions_of(tips, stashes, detached).contains(name) <==> (detached && name
            == HEAD.spec_bytes()) || exists|i: int|
            0 <= i < tips.len() && (#[trigger] tips[i]).reference.name == name && {
                &&& tips[i].commit
                &&& tips[i].reference.state is Object
                &&& name != HEAD.spec_bytes()
                &&& !has_prefix(name, stashes)
                &&& !has_prefix(name, REVIEW_STASH_PREFIX.spec_bytes())
                &&& !queue_ref(name)
            },
        detached ==> revisions_of(tips, stashes, detached).last() == HEAD.spec_bytes(),
    decreases tips.len(),
{
    let names = loaded_from(tips, stashes);
    if detached {
        let all = names.push(HEAD.spec_bytes());
        assert(all[names.len() as int] == HEAD.spec_bytes());
        assert(all.contains(name) <==> names.contains(name) || name == HEAD.spec_bytes()) by {
            if names.contains(name) {
                let i = names.index_of(name);
                assert(all[i] == name);
            }
        }
    }
    if tips.len() > 0 {
        let rest = tips.drop_last();
        views_hold_the_tips(rest, stashes, false, name);
        let before = loaded_from(rest, stashes);
        assert(forall|i: int| 0 <= i < rest.len() ==> rest[i] == #[trigger] tips[i]);
        assert(tips[tips.len() - 1] == tips.last());
        if before.contains(name) {
            let i = before.index_of(name);
            assert(names[i] == name);
            let k = choose|k: int|
                0 <= k < rest.len() && (#[trigger] rest[k]).reference.name == name && {
                    &&& rest[k].commit
                    &&& rest[k].reference.state is Object
                    &&& name != HEAD.spec_bytes()
                    &&& !has_prefix(name, stashes)
                    &&& !has_prefix(name, REVIEW_STASH_PREFIX.spec_bytes())
                    &&& !queue_ref(name)
                };
            assert(tips[k].reference.name == name);
        }
        if is_loaded(tips.last(), stashes) {
            assert(names[before.len() as int] == tips.last().reference.name);
        }
    }
}

} // verus!
