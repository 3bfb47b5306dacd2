//! Keys as paths: directories, file extensions and references from one
//! asset to another.
//!
//! A key is text in which `/` separates directories, whether it names a
//! local file or a location on a network. Two spellings of a local path
//! that differ only in repeated separators, in directories that are a
//! single dot, or in a separator at the end, have one tidy and trimmed
//! form.

use vstd::prelude::*;
use crate::text::{chars_of, has_prefix, starts_with, string_of};

verus! {

/// The separator between the directories of a key.
pub open spec fn separator() -> char {
    '/'
}

/// `path` without the separators at its end.
pub open spec fn without_trailing_separators(path: Seq<char>) -> Seq<char>
    decreases path.len(),
{
    if path.len() > 0 && path.last() == separator() {
        without_trailing_separators(path.drop_last())
    } else {
        path
    }
}

/// What stands before the last separator of `path`; nothing if `path` has
/// no separator.
pub open spec fn before_last_separator(path: Seq<char>) -> Seq<char>
    decreases path.len(),
{
    if path.len() == 0 {
        path
    } else if path.last() == separator() {
        path.drop_last()
    } else {
        before_last_separator(path.drop_last())
    }
}

/// The directory of `path`: what stands before its last separator, without
/// the separators at the end of that. It is empty for a path without a
/// separator, and the root `/` for a path whose only separators are at its
/// start.
pub open spec fn parent_of(path: Seq<char>) -> Seq<char> {
    if !path.contains(separator()) {
        Seq::empty()
    } else {
        let dir = without_trailing_separators(before_last_separator(path));
        if dir.len() == 0 {
            seq![separator()]
        } else {
            dir
        }
    }
}

/// The path that `relative` names when it is read in the directory `base`:
/// `relative` itself if it starts at the root or `base` is empty, else
/// `base`, one separator, and `relative`.
pub open spec fn joined(base: Seq<char>, relative: Seq<char>) -> Seq<char> {
    if base.len() == 0 || has_prefix(relative, seq![separator()]) {
        relative
    } else if base.last() == separator() {
        base + relative
    } else {
        base + seq![separator()] + relative
    }
}

/// What stands after the last `mark` in `text`; all of `text` if it holds
/// no `mark`.
pub open spec fn after_last(text: Seq<char>, mark: char) -> Seq<char>
    decreases text.len(),
{
    if text.len() == 0 || text.last() == mark {
        Seq::empty()
    } else {
        after_last(text.drop_last(), mark).push(text.last())
    }
}

/// The file name of `path`: what stands after its last separator.
pub open spec fn file_name_of(path: Seq<char>) -> Seq<char> {
    after_last(path, separator())
}

/// The extension of `path`: what stands after the last dot of its file
/// name. There is none if the file name holds no dot, holds its only dot at
/// its start, or is `..`.
pub open spec fn extension_of(path: Seq<char>) -> Option<Seq<char>> {
    let name = file_name_of(path);
    let extension = after_last(name, '.');
    if !name.contains('.') || name == seq!['.', '.'] || name.len() == extension.len() + 1 {
        None
    } else {
        Some(extension)
    }
}

/// `path` names a file with the extension `extension`.
pub open spec fn has_extension(path: Seq<char>, extension: Seq<char>) -> bool {
    extension_of(path) == Some(extension)
}

/// `after_last` is the end of the text from the position after the last
/// mark on.
proof fn lemma_after_last(text: Seq<char>, mark: char, from: int)
    requires
        0 <= from <= text.len(),
        from > 0 ==> text[from - 1] == mark,
        forall|i: int| from <= i < text.len() ==> text[i] != mark,
    ensures
        after_last(text, mark) == text.subrange(from, text.len() as int),
        from == 0 ==> !text.contains(mark),
        from > 0 ==> text.contains(mark),
    decreases text.len() - from,
{
    if from == text.len() {
        assert(text.subrange(from, text.len() as int) =~= Seq::<char>::empty());
    } else {
        let shorter = text.drop_last();
        lemma_after_last(shorter, mark, from);
        assert(shorter.subrange(from, shorter.len() as int).push(text.last()) =~= text.subrange(
            from,
            text.len() as int,
        ));
        if from > 0 {
            assert(shorter.contains(mark));
            let at = shorter.index_of(mark);
            assert(text[at] == mark);
        }
    }
    if from == 0 && text.contains(mark) {
        let at = text.index_of(mark);
        assert(text[at] == mark);
    }
}

/// Characters after the last separator do not count for what stands before
/// it, nor for whether there is one.
proof fn lemma_skip_file_name(path: Seq<char>, end: int)
    requires
        0 <= end <= path.len(),
        forall|i: int| end <= i < path.len() ==> path[i] != separator(),
    ensures
        before_last_separator(path) == before_last_separator(path.take(end)),
        path.contains(separator()) == path.take(end).contains(separator()),
    decreases path.len() - end,
{
    if end == path.len() {
        assert(path.take(end) =~= path);
    } else {
        let shorter = path.drop_last();
        assert(shorter.take(end) =~= path.take(end));
        lemma_skip_file_name(shorter, end);
        if path.contains(separator()) {
            let at = path.index_of(separator());
            assert(shorter[at] == separator());
        }
        if shorter.contains(separator()) {
            let at = shorter.index_of(separator());
            assert(path[at] == separator());
        }
    }
}

/// Separators between `keep` and `end` are trailing ones.
proof fn lemma_skip_separators(path: Seq<char>, keep: int, end: int)
    requires
        0 <= keep <= end <= path.len(),
        forall|i: int| keep <= i < end ==> path[i] == separator(),
    ensures
        without_trailing_separators(path.take(end)) == without_trailing_separators(
            path.take(keep),
        ),
    decreases end - keep,
{
    if keep < end {
        assert(path.take(end).last() == separator());
        assert(path.take(end).drop_last() =~= path.take(end - 1));
        lemma_skip_separators(path, keep, end - 1);
    }
}

/// The directory of `path`.
pub fn parent(path: &str) -> (dir: String)
    ensures
        dir@ == parent_of(path@),
{
    let chars = chars_of(path);
    let mut end: usize = chars.len();
    while end > 0 && chars[end - 1] != '/'
        invariant
            end <= chars.len(),
            forall|i: int| end <= i < chars.len() ==> chars@[i] != separator(),
        decreases end,
    {
        end -= 1;
    }
    proof {
        lemma_skip_file_name(path@, end as int);
    }
    if end == 0 {
        proof {
            assert(path@.take(0) =~= Seq::<char>::empty());
            assert(!Seq::<char>::empty().contains(separator()));
        }
        return String::new();
    }
    let mut keep: usize = end - 1;
    while keep > 0 && chars[keep - 1] == '/'
        invariant
            keep < end <= chars.len(),
            forall|i: int| keep <= i < end - 1 ==> chars@[i] == separator(),
        decreases keep,
    {
        keep -= 1;
    }
    proof {
        let upto = path@.take(end as int);
        assert(upto.last() == separator());
        assert(upto[end - 1] == separator());
        assert(upto.drop_last() =~= path@.take(end - 1));
        lemma_skip_separators(path@, keep as int, end - 1);
        let kept = path@.take(keep as int);
        if keep > 0 {
            assert(kept.last() != separator());
        }
        assert(without_trailing_separators(kept) == kept);
    }
    if keep == 0 {
        proof {
            reveal_strlit("/");
            assert("/"@ =~= seq![separator()]);
        }
        String::from_str("/")
    } else {
        proof {
            assert(path@.take(keep as int) =~= path@.subrange(0, keep as int));
        }
        String::from_str(path.substring_char(0, keep))
    }
}

/// The path that `relative` names when it is read in the directory `base`.
pub fn join(base: &str, relative: &str) -> (path: String)
    ensures
        path@ == joined(base@, relative@),
{
    let base_chars = chars_of(base);
    let relative_chars = chars_of(relative);
    let slash = chars_of("/");
    proof {
        reveal_strlit("/");
        assert("/"@ =~= seq![separator()]);
    }
    if base_chars.len() == 0 || starts_with(&relative_chars, &slash) {
        return String::from_str(relative);
    }
    let mut path = String::from_str(base);
    if base_chars[base_chars.len() - 1] != '/' {
        path.append("/");
    }
    path.append(relative);
    path
}

/// The position after the last `mark` in `text` at or after `start`, or
/// `start` if there is none.
fn after_last_mark(text: &Vec<char>, start: usize, mark: char) -> (from: usize)
    requires
        start <= text.len(),
    ensures
        start <= from <= text.len(),
        from > start ==> text@[from - 1] == mark,
        forall|i: int| from <= i < text.len() ==> text@[i] != mark,
{
    let mut from: usize = text.len();
    while from > start && text[from - 1] != mark
        invariant
            start <= from <= text.len(),
            forall|i: int| from <= i < text.len() ==> text@[i] != mark,
        decreases from,
    {
        from -= 1;
    }
    from
}

/// The extension of `path`.
pub fn extension(path: &str) -> (found: Option<String>)
    ensures
        match found {
            Some(text) => extension_of(path@) == Some(text@),
            None => extension_of(path@) is None,
        },
{
    let chars = chars_of(path);
    let start = after_last_mark(&chars, 0, '/');
    let dot = after_last_mark(&chars, start, '.');
    let ghost name = path@.subrange(start as int, path@.len() as int);
    proof {
        lemma_after_last(path@, separator(), start as int);
        assert(name == file_name_of(path@));
        assert forall|i: int| dot - start <= i < name.len() implies name[i] != '.' by {
            assert(name[i] == path@[start + i]);
        }
        if dot > start {
            assert(name[dot - start - 1] == path@[dot - 1]);
        }
        lemma_after_last(name, '.', dot - start);
        assert(name.subrange(dot - start, name.len() as int) =~= path@.subrange(
            dot as int,
            path@.len() as int,
        ));
    }
    if dot == start || dot == start + 1 {
        return None;
    }
    if chars.len() == start + 2 && chars[start] == '.' {
        proof {
            assert(name =~= seq!['.', '.']);
        }
        return None;
    }
    proof {
        if name == seq!['.', '.'] {
            assert(name.len() == 2);
            assert(name[0] == '.');
            assert(path@[start as int] == name[0]);
        }
    }
    Some(String::from_str(path.substring_char(dot, chars.len())))
}

/// Decides whether `path` names a file with the extension `wanted`.
pub fn with_extension(path: &str, wanted: &str) -> (found: bool)
    ensures
        found == has_extension(path@, wanted@),
{
    match extension(path) {
        Some(text) => text == String::from_str(wanted),
        None => false,
    }
}

/// A separator stands at `at` directly before another.
pub open spec fn doubled_at(path: Seq<char>, at: int) -> bool {
    path[at] == separator() && path[at + 1] == separator()
}

/// A directory that is a single dot stands between the separators at `at`
/// and `at + 2`.
pub open spec fn dot_at(path: Seq<char>, at: int) -> bool {
    path[at] == separator() && path[at + 1] == '.' && path[at + 2] == separator()
}

/// `path` ends with a separator and a dot.
pub open spec fn ends_with_dot(path: Seq<char>) -> bool {
    path.len() >= 2 && path[path.len() - 1] == '.' && path[path.len() - 2] == separator()
}

/// `path` holds no separator directly after a separator, and no directory
/// that is a single dot between two separators.
pub open spec fn is_tidy(path: Seq<char>) -> bool {
    &&& forall|at: int| 0 <= at < path.len() - 1 ==> !#[trigger] doubled_at(path, at)
    &&& forall|at: int| 0 <= at < path.len() - 2 ==> !#[trigger] dot_at(path, at)
}

/// `path` written without what does not change the file it names: a
/// separator that directly follows a separator is left out, and so is a
/// directory that is a single dot between two separators, with the
/// separator after it. The start and the end of `path` stay as they are.
pub open spec fn tidy(path: Seq<char>) -> Seq<char>
    decreases path.len(),
{
    if path.len() == 0 {
        path
    } else {
        let before = tidy(path.drop_last());
        if path.last() != separator() {
            before.push(path.last())
        } else if before.len() > 0 && before.last() == separator() {
            before
        } else if ends_with_dot(before) {
            before.drop_last()
        } else {
            before.push(path.last())
        }
    }
}

/// What `tidy` gives is tidy.
pub proof fn lemma_tidy_is_tidy(path: Seq<char>)
    ensures
        is_tidy(tidy(path)),
    decreases path.len(),
{
    if path.len() > 0 {
        let before = tidy(path.drop_last());
        let after = tidy(path);
        lemma_tidy_is_tidy(path.drop_last());
        assert forall|at: int| 0 <= at < after.len() - 1 implies !#[trigger] doubled_at(
            after,
            at,
        ) by {
            if at < before.len() - 1 {
                assert(!doubled_at(before, at));
            }
        }
        assert forall|at: int| 0 <= at < after.len() - 2 implies !#[trigger] dot_at(after, at) by {
            if at < before.len() - 2 {
                assert(!dot_at(before, at));
            }
        }
    }
}

/// A tidy path is its own `tidy`.
pub proof fn lemma_tidy_of_tidy(path: Seq<char>)
    requires
        is_tidy(path),
    ensures
        tidy(path) == path,
    decreases path.len(),
{
    if path.len() > 0 {
        let shorter = path.drop_last();
        assert forall|at: int| 0 <= at < shorter.len() - 1 implies !#[trigger] doubled_at(
            shorter,
            at,
        ) by {
            assert(!doubled_at(path, at));
        }
        assert forall|at: int| 0 <= at < shorter.len() - 2 implies !#[trigger] dot_at(
            shorter,
            at,
        ) by {
            assert(!dot_at(path, at));
        }
        lemma_tidy_of_tidy(shorter);
        if path.last() == separator() {
            if shorter.len() > 0 && shorter.last() == separator() {
                assert(doubled_at(path, path.len() - 2));
            }
            if ends_with_dot(shorter) {
                assert(dot_at(path, path.len() - 3));
            }
        }
        assert(shorter.push(path.last()) =~= path);
    }
}

/// `path` without a single dot that is its last directory, and without the
/// separator at its end; a path that is one character long stays.
pub open spec fn trimmed(path: Seq<char>) -> Seq<char> {
    let kept = if ends_with_dot(path) {
        path.drop_last()
    } else {
        path
    };
    if kept.len() > 1 && kept.last() == separator() {
        kept.drop_last()
    } else {
        kept
    }
}

/// What is trimmed off a tidy path leaves a tidy path that trimming does not
/// change.
pub proof fn lemma_trimmed_tidy(path: Seq<char>)
    requires
        is_tidy(path),
    ensures
        is_tidy(trimmed(path)),
        trimmed(trimmed(path)) == trimmed(path),
{
    let short = trimmed(path);
    assert forall|at: int| 0 <= at < short.len() - 1 implies !#[trigger] doubled_at(short, at) by {
        assert(!doubled_at(path, at));
    }
    assert forall|at: int| 0 <= at < short.len() - 2 implies !#[trigger] dot_at(short, at) by {
        assert(!dot_at(path, at));
    }
    let n = short.len() as int;
    if n > 1 && short.last() == separator() {
        assert(doubled_at(path, n - 1));
    }
    if ends_with_dot(short) {
        assert(dot_at(path, n - 2));
    }
}

/// The characters of `path` written tidily.
fn tidy_chars(path: &str) -> (out: Vec<char>)
    ensures
        out@ == tidy(path@),
{
    let chars = chars_of(path);
    let mut out: Vec<char> = Vec::new();
    let mut i: usize = 0;
    proof {
        assert(path@.take(0) =~= Seq::<char>::empty());
    }
    while i < chars.len()
        invariant
            i <= chars.len(),
            chars@ == path@,
            out@ == tidy(path@.take(i as int)),
        decreases chars.len() - i,
    {
        proof {
            assert(path@.take(i + 1).drop_last() =~= path@.take(i as int));
        }
        let c = chars[i];
        let n: usize = out.len();
        if c != '/' {
            out.push(c);
        } else if n > 0 && out[n - 1] == '/' {
        } else if n >= 2 && out[n - 1] == '.' && out[n - 2] == '/' {
            out.pop();
        } else {
            out.push(c);
        }
        i += 1;
    }
    proof {
        assert(path@.take(path@.len() as int) =~= path@);
    }
    out
}

/// `path` written tidily.
pub fn tidy_path(path: &str) -> (out: String)
    ensures
        out@ == tidy(path@),
{
    string_of(tidy_chars(path))
}

/// `path` written tidily and trimmed.
pub fn trimmed_path(path: &str) -> (out: String)
    ensures
        out@ == trimmed(tidy(path@)),
{
    let mut out = tidy_chars(path);
    let n: usize = out.len();
    if n >= 2 && out[n - 1] == '.' && out[n - 2] == '/' {
        out.pop();
    }
    let m: usize = out.len();
    if m > 1 && out[m - 1] == '/' {
        out.pop();
    }
    string_of(out)
}

} // verus!
