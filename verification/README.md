# gix_tix

The edits of a history browser for Git, as a verified library: rebase documents, automatic merges,
undo, moving HEAD and the pins that keep commits in view, reviews, and the documents in which
commits are described.

* `src/` decides. Its functions take plain values that were read out of a repository, and say what
  is to be done: which references change from what to what, which commands Git runs, which commits
  are written, in which order. Every function has a contract, and Verus proves it. What spans
  functions is stated by public proof functions, beside those that they speak of or in `laws.rs`.
* `app/` acts. It reads repositories with `gix`, runs Git and editors, and writes what was decided.
  The rebase engine and the view of the history come from the application that embeds it.
* `tests/` runs the library on concrete values.

What the library takes from `gix` goes through small functions that Verus does not read. They are
in `ids.rs`, `names.rs`, `text.rs`, `undo/config.rs`, `reword/actor.rs` and `reword/trailers.rs`,
each with a comment that says what is believed of the function it calls.
