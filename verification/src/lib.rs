//! Editing history: rebase todos, commit messages, automatic merges, time travel
//! and undo, as decisions over plain values.
pub mod auto_merge;
pub mod bytes;
pub mod create;
pub mod discard;
pub mod forget;
pub mod head;
pub mod history;
pub mod ids;
pub mod names;
pub mod plan;
pub mod refs;
pub mod review;
pub mod reword;
pub mod split;
pub mod text;
pub mod time_travel;
pub mod todo;
pub mod trees;
pub mod undo;
pub mod view;
