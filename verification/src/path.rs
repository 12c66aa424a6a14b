//! Path validation shared by download and post-processing boundaries.

use std::path::{Path, PathBuf};
use vstd::prelude::*;
use vstd::utf8::encode_utf8;

use crate::server_set::texts;
use crate::text::chars_of;

verus! {

/// `std`'s borrowed path.
#[verifier::external_type_specification]
#[verifier::external_body]
pub struct ExPath(std::path::Path);

/// `std`'s owned path.
#[verifier::external_type_specification]
#[verifier::external_body]
pub struct ExPathBuf(std::path::PathBuf);

/// The components of a path, in the form in which `std` compares them: the
/// encoded bytes of each. In a Windows prefix all separators are backslashes, or
/// slashes where backslashes would make it a verbatim one, and a drive letter is
/// in upper case; the root of a Windows path is a backslash.
pub uninterp spec fn path_parts(path: &Path) -> Seq<Seq<u8>>;

/// The components of an owned path, in the same form.
pub uninterp spec fn buf_parts(path: PathBuf) -> Seq<Seq<u8>>;

/// Whether a character separates components. Backslashes do on every platform.
pub open spec fn is_separator(c: char) -> bool {
    c == '/' || c == '\\'
}

/// Whether a character is a control character (general category Cc).
pub open spec fn is_control(c: char) -> bool {
    c <= '\u{1f}' || ('\u{7f}' <= c && c <= '\u{9f}')
}

/// Whether a text holds a control character.
pub open spec fn has_control(text: Seq<char>) -> bool {
    exists|i: int| 0 <= i < text.len() && is_control(#[trigger] text[i])
}

/// Whether a text holds a separator.
pub open spec fn has_separator(text: Seq<char>) -> bool {
    exists|i: int| 0 <= i < text.len() && is_separator(#[trigger] text[i])
}

/// Whether the second byte of a text is a colon.
pub open spec fn has_early_colon(text: Seq<char>) -> bool {
    text.len() >= 2 && text[0] <= '\u{7f}' && text[1] == ':'
}

/// Whether a text starts with a drive prefix: an ASCII letter and a colon.
pub open spec fn has_drive(text: Seq<char>) -> bool {
    &&& text.len() >= 2
    &&& ('a' <= text[0] && text[0] <= 'z') || ('A' <= text[0] && text[0] <= 'Z')
    &&& text[1] == ':'
}

/// The pieces of a name between its separators.
pub open spec fn pieces(name: Seq<char>) -> Seq<Seq<char>>
    decreases name.len(),
{
    if name.len() == 0 {
        seq![Seq::empty()]
    } else {
        let init = pieces(name.drop_last());
        if is_separator(name.last()) {
            init.push(Seq::empty())
        } else {
            init.drop_last().push(init.last().push(name.last()))
        }
    }
}

/// Whether a piece names something: it is neither empty nor a dot.
pub open spec fn is_named(piece: Seq<char>) -> bool {
    piece.len() > 0 && piece != seq!['.']
}

/// Whether a piece leads upward.
pub open spec fn is_climb(piece: Seq<char>) -> bool {
    piece == seq!['.', '.']
}

/// The pieces of a name that name something.
pub open spec fn named_pieces(name: Seq<char>) -> Seq<Seq<char>> {
    pieces(name).filter(|piece: Seq<char>| is_named(piece))
}

/// Whether a relative name may be joined beneath a root.
pub open spec fn is_safe_name(name: Seq<char>) -> bool {
    &&& name.len() > 0
    &&& !is_separator(name[0])
    &&& !has_early_colon(name)
    &&& !has_control(name)
    &&& forall|i: int| 0 <= i < pieces(name).len() ==> !is_climb(#[trigger] pieces(name)[i])
}

/// Whether a value is a single path component.
pub open spec fn is_safe_component(value: Seq<char>) -> bool {
    &&& is_named(value)
    &&& !is_climb(value)
    &&& !has_separator(value)
    &&& !has_control(value)
}

/// Pieces as the components of a path.
pub open spec fn encoded(list: Seq<Seq<char>>) -> Seq<Seq<u8>> {
    list.map_values(|piece: Seq<char>| encode_utf8(piece))
}

/// Whether the first component begins with a backslash.
pub open spec fn leads_with_backslash(parts: Seq<Seq<u8>>) -> bool {
    parts.len() > 0 && parts[0].len() > 0 && parts[0][0] == 0x5c
}

/// Whether a path starts as one that Windows may read anew when it is extended:
/// with a bare root, which becomes a prefix where `\\server` gets a share, with
/// the device prefix `\\.\` that lacks a device, or with a verbatim prefix,
/// `\\?\`, under which the path is normalized.
pub open spec fn has_open_start(parts: Seq<Seq<u8>>) -> bool {
    &&& leads_with_backslash(parts)
    &&& {
        let first = parts[0];
        let marked = first.len() >= 4 && first[1] == 0x5c && first[3] == 0x5c;
        ||| first.len() == 1
        ||| marked && first[2] == 0x3f
        ||| marked && first[2] == 0x2e && first.len() == 4
    }
}

/// Whether a component is the drive of a Windows path.
pub open spec fn is_drive_part(part: Seq<u8>) -> bool {
    part.len() == 2 && 0x41 <= part[0] && part[0] <= 0x5a && part[1] == 0x3a
}

/// Whether the components are a drive and what is relative to its current
/// directory.
pub open spec fn is_drive_relative(parts: Seq<Seq<u8>>) -> bool {
    parts.len() > 0 && is_drive_part(parts[0]) && !leads_with_backslash(parts.drop_first())
}

/// Whether a path starts at a place of its own that no path relative to a
/// drive shares: `/`, the root of a drive, a network share or a named directory.
pub open spec fn is_anchored(parts: Seq<Seq<u8>>) -> bool {
    &&& parts.len() > 0
    &&& !has_open_start(parts)
    &&& is_drive_part(parts[0]) ==> leads_with_backslash(parts.drop_first())
}

/// Whether some piece of a name starts with a drive prefix.
pub open spec fn names_a_drive(name: Seq<char>) -> bool {
    exists|i: int| 0 <= i < named_pieces(name).len() && has_drive(#[trigger] named_pieces(name)[i])
}

/// Whether every piece of a name extends a path of the given components by
/// one, on Unix and on Windows.
pub open spec fn joins_plainly(root: Seq<Seq<u8>>, name: Seq<char>) -> bool {
    &&& !names_a_drive(name)
    &&& named_pieces(name).len() > 0 ==> !has_open_start(root)
}

/// Whether an outcome is one that joining a name beneath a root may have.
///
/// What is joined has a safe name and begins with the root, and a safe name
/// that joins plainly is joined. Beneath an anchored root the result is the root
/// followed by the pieces of the name, and nothing else. So it is beneath other
/// roots without an open start, unless a piece with a drive prefix has taken the
/// place of the path.
pub open spec fn is_join(
    root: Seq<Seq<u8>>,
    name: Seq<char>,
    joined: Option<Seq<Seq<u8>>>,
) -> bool {
    let whole = root + encoded(named_pieces(name));
    &&& joined is Some ==> is_safe_name(name)
    &&& is_safe_name(name) && joins_plainly(root, name) ==> joined is Some && joined->0 == whole
    &&& joined matches Some(path) ==> {
        &&& root.is_prefix_of(path)
        &&& is_anchored(root) ==> path == whole
        &&& !has_open_start(root) ==> path == whole || (names_a_drive(name)
            && is_drive_relative(path))
    }
}

/// The components of a path that there may be.
pub open spec fn joined_parts(joined: Option<PathBuf>) -> Option<Seq<Seq<u8>>> {
    match joined {
        Some(path) => Some(buf_parts(path)),
        None => None,
    }
}

/// Calls `Path::to_path_buf`: an owned copy.
#[verifier::external_body]
fn to_path_buf(path: &Path) -> (owned: PathBuf)
    ensures
        buf_parts(owned) == path_parts(path),
{
    path.to_path_buf()
}

/// Calls `PathBuf::push`, on Unix or Windows: a text without separators that
/// names something is added as one more component. On Windows, one with a drive
/// prefix takes the place of the path instead. Nothing is said of a path with an
/// open start, which Windows may read anew, nor of Cygwin, which reads a prefix
/// where Unix does not.
#[verifier::external_body]
fn push(path: &mut PathBuf, component: &str)
    ensures
        is_named(component@) && !is_climb(component@) && !has_separator(component@)
            && !has_open_start(buf_parts(*old(path))) ==> {
            ||| buf_parts(*final(path)) == buf_parts(*old(path)).push(encode_utf8(component@))
            ||| has_drive(component@) && is_drive_relative(buf_parts(*final(path)))
        },
{
    path.push(component)
}

/// Calls `Path::starts_with`: whether the components of one path begin with
/// those of another.
#[verifier::external_body]
fn starts_with(path: &PathBuf, base: &Path) -> (r: bool)
    ensures
        r == path_parts(base).is_prefix_of(buf_parts(*path)),
{
    path.starts_with(base)
}

/// Whether a character separates components.
fn separates(c: char) -> (r: bool)
    ensures
        r == is_separator(c),
{
    c == '/' || c == '\\'
}

/// Whether characters hold a control character.
fn holds_control(chars: &Vec<char>) -> (r: bool)
    ensures
        r == has_control(chars@),
{
    let mut i: usize = 0;
    while i < chars.len()
        invariant
            i <= chars.len(),
            forall|j: int| 0 <= j < i ==> !is_control(#[trigger] chars@[j]),
        decreases chars.len() - i,
    {
        let c: char = chars[i];
        if c <= '\u{1f}' || ('\u{7f}' <= c && c <= '\u{9f}') {
            assert(is_control(chars@[i as int]));
            return true;
        }
        i += 1;
    }
    false
}

/// Validate a user supplied directory or category component.
/// These values are intentionally a single path component.
pub fn safe_component(value: &str) -> (r: Option<&str>)
    ensures
        r is Some <==> is_safe_component(value@),
        r matches Some(v) ==> v@ == value@,
{
    let chars: Vec<char> = chars_of(value);
    let dot = chars.len() == 1 && chars[0] == '.';
    let dots = chars.len() == 2 && chars[0] == '.' && chars[1] == '.';
    assert(dot == (value@ == seq!['.'])) by {
        if dot {
            assert(value@ =~= seq!['.']);
        }
    }
    assert(dots == (value@ == seq!['.', '.'])) by {
        if dots {
            assert(value@ =~= seq!['.', '.']);
        }
    }
    if chars.len() == 0 || dot || dots || holds_control(&chars) {
        return None;
    }
    let mut i: usize = 0;
    while i < chars.len()
        invariant
            i <= chars.len(),
            chars@ == value@,
            forall|j: int| 0 <= j < i ==> !is_separator(#[trigger] value@[j]),
        decreases chars.len() - i,
    {
        if separates(chars[i]) {
            assert(is_separator(value@[i as int]));
            return None;
        }
        i += 1;
    }
    Some(value)
}

/// A name always has a piece, be it an empty one.
proof fn lemma_pieces_nonempty(name: Seq<char>)
    ensures
        pieces(name).len() > 0,
    decreases name.len(),
{
    if name.len() > 0 {
        lemma_pieces_nonempty(name.drop_last());
    }
}

/// Adds a finished piece of a name to those that name something. Gives up on
/// one that leads upward.
fn keep_piece<'a>(
    kept: &mut Vec<&'a str>,
    name: &'a str,
    chars: &Vec<char>,
    start: usize,
    end: usize,
) -> (ok: bool)
    requires
        chars@ == name@,
        start <= end <= chars.len(),
    ensures
        ok == !is_climb(name@.subrange(start as int, end as int)),
        ok ==> texts(final(kept)@) == (if is_named(name@.subrange(start as int, end as int)) {
            texts(old(kept)@).push(name@.subrange(start as int, end as int))
        } else {
            texts(old(kept)@)
        }),
{
    let ghost piece = name@.subrange(start as int, end as int);
    let len: usize = end - start;
    if len == 2 && chars[start] == '.' && chars[start + 1] == '.' {
        assert(piece =~= seq!['.', '.']);
        return false;
    }
    let dot = len == 1 && chars[start] == '.';
    proof {
        assert(forall|k: int| 0 <= k < len ==> piece[k] == #[trigger] chars@[start + k]);
        if dot {
            assert(piece =~= seq!['.']);
        }
        if piece == seq!['.'] {
            assert(piece.len() == 1 && chars@[start + 0] == '.');
        }
        if piece == seq!['.', '.'] {
            assert(piece.len() == 2 && chars@[start + 0] == '.' && chars@[start + 1] == '.');
        }
    }
    if len > 0 && !dot {
        kept.push(name.substring_char(start, end));
        assert(texts(kept@) =~= texts(old(kept)@).push(piece));
    }
    true
}

/// The parts of an untrusted relative name that are to be joined beneath a
/// root, or `None` where the name is not safe.
pub fn relative_parts(name: &str) -> (parts: Option<Vec<&str>>)
    ensures
        parts is Some <==> is_safe_name(name@),
        parts matches Some(parts) ==> texts(parts@) == named_pieces(name@),
{
    let chars: Vec<char> = chars_of(name);
    if chars.len() == 0 || separates(chars[0]) || holds_control(&chars) {
        return None;
    }
    if chars.len() >= 2 && chars[0] <= '\u{7f}' && chars[1] == ':' {
        return None;
    }
    let mut kept: Vec<&str> = Vec::new();
    let mut start: usize = 0;
    let mut i: usize = 0;
    let ghost named = |piece: Seq<char>| is_named(piece);
    proof {
        assert(name@.take(0) =~= Seq::empty());
        assert(name@.subrange(0, 0) =~= Seq::empty());
        reveal(Seq::filter);
        assert(pieces(name@.take(0)).drop_last() =~= Seq::empty());
        assert(texts(kept@) =~= Seq::empty());
    }
    while i < chars.len()
        invariant
            chars@ == name@,
            start <= i <= chars.len(),
            named == (|piece: Seq<char>| is_named(piece)),
            pieces(name@.take(i as int)).len() > 0,
            pieces(name@.take(i as int)).last() == name@.subrange(start as int, i as int),
            texts(kept@) == pieces(name@.take(i as int)).drop_last().filter(named),
            forall|k: int|
                0 <= k < pieces(name@.take(i as int)).len() - 1 ==> !is_climb(
                    #[trigger] pieces(name@.take(i as int))[k],
                ),
        decreases chars.len() - i,
    {
        let ghost done = pieces(name@.take(i as int));
        let ghost next = pieces(name@.take(i + 1));
        assert(name@.take(i + 1).drop_last() =~= name@.take(i as int));
        assert(name@.take(i + 1).last() == chars@[i as int]);
        if separates(chars[i]) {
            assert(next == done.push(Seq::empty()));
            if !keep_piece(&mut kept, name, &chars, start, i) {
                proof {
                    lemma_pieces_extend(name@, i as int, done.len() - 1);
                }
                return None;
            }
            proof {
                reveal(Seq::filter);
                assert(next.drop_last() =~= done);
                assert(done.drop_last().push(done.last()) =~= done);
                assert(name@.subrange(i + 1, i + 1) =~= Seq::empty());
                assert forall|k: int| 0 <= k < next.len() - 1 implies !is_climb(
                    #[trigger] next[k],
                ) by {
                    assert(next[k] == done[k]);
                }
            }
            start = i + 1;
        } else {
            proof {
                assert(next == done.drop_last().push(done.last().push(chars@[i as int])));
                assert(name@.subrange(start as int, i as int).push(chars@[i as int])
                    =~= name@.subrange(start as int, i + 1));
                assert(next.drop_last() =~= done.drop_last());
                assert forall|k: int| 0 <= k < next.len() - 1 implies !is_climb(
                    #[trigger] next[k],
                ) by {
                    assert(next[k] == done[k]);
                }
            }
        }
        i += 1;
    }
    let ghost all = pieces(name@);
    assert(name@.take(i as int) =~= name@);
    if !keep_piece(&mut kept, name, &chars, start, i) {
        assert(is_climb(all[all.len() - 1]));
        return None;
    }
    proof {
        reveal(Seq::filter);
        assert(all.drop_last().push(all.last()) =~= all);
    }
    Some(kept)
}

/// A piece that a separator has ended stays as it is, however the name goes on.
proof fn lemma_pieces_extend(name: Seq<char>, i: int, k: int)
    requires
        0 <= i < name.len(),
        is_separator(name[i]),
        0 <= k < pieces(name.take(i)).len(),
    ensures
        k < pieces(name).len() - 1,
        pieces(name)[k] == pieces(name.take(i))[k],
    decreases name.len(),
{
    if i == name.len() - 1 {
        assert(name.take(i) =~= name.drop_last());
    } else {
        let init = name.drop_last();
        assert(init.take(i) =~= name.take(i));
        lemma_pieces_extend(init, i, k);
    }
}

/// No piece holds a separator.
proof fn lemma_pieces_unseparated(name: Seq<char>, k: int)
    requires
        0 <= k < pieces(name).len(),
    ensures
        !has_separator(pieces(name)[k]),
    decreases name.len(),
{
    if name.len() > 0 {
        let init = pieces(name.drop_last());
        lemma_pieces_nonempty(name.drop_last());
        if k < init.len() {
            lemma_pieces_unseparated(name.drop_last(), k);
        }
        if !is_separator(name.last()) && k == init.len() - 1 {
            let piece = pieces(name)[k];
            assert(piece == init.last().push(name.last()));
            assert forall|i: int| 0 <= i < piece.len() implies !is_separator(
                #[trigger] piece[i],
            ) by {
                if i < piece.len() - 1 {
                    assert(piece[i] == init.last()[i]);
                }
            }
        }
    }
}

/// What a filter keeps was in the list.
proof fn lemma_filter_member(list: Seq<Seq<char>>, pred: spec_fn(Seq<char>) -> bool, k: int)
    requires
        0 <= k < list.filter(pred).len(),
    ensures
        list.contains(list.filter(pred)[k]),
    decreases list.len(),
{
    reveal(Seq::filter);
    let init = list.drop_last();
    if k < init.filter(pred).len() {
        lemma_filter_member(init, pred, k);
        let j = choose|j: int| 0 <= j < init.len() && init[j] == init.filter(pred)[k];
        assert(list[j] == list.filter(pred)[k]);
    } else {
        assert(list[list.len() - 1] == list.filter(pred)[k]);
    }
}

/// Each piece of a safe name that names something is a safe component.
pub proof fn named_pieces_are_safe_components(name: Seq<char>, k: int)
    requires
        is_safe_name(name),
        0 <= k < named_pieces(name).len(),
    ensures
        is_safe_component(named_pieces(name)[k]),
{
    let pred = |piece: Seq<char>| is_named(piece);
    let piece = named_pieces(name)[k];
    pieces(name).lemma_filter_pred(pred, k);
    lemma_filter_member(pieces(name), pred, k);
    let j = choose|j: int| 0 <= j < pieces(name).len() && pieces(name)[j] == piece;
    lemma_pieces_unseparated(name, j);
    assert forall|i: int| 0 <= i < piece.len() implies !is_control(#[trigger] piece[i]) by {
        lemma_pieces_chars(name, j, i);
        let at = choose|at: int| 0 <= at < name.len() && name[at] == piece[i];
        assert(!is_control(name[at]));
    }
}

/// The characters of a piece are characters of the name.
proof fn lemma_pieces_chars(name: Seq<char>, k: int, i: int)
    requires
        0 <= k < pieces(name).len(),
        0 <= i < pieces(name)[k].len(),
    ensures
        name.contains(pieces(name)[k][i]),
    decreases name.len(),
{
    if name.len() > 0 {
        let init = pieces(name.drop_last());
        let c = pieces(name)[k][i];
        lemma_pieces_nonempty(name.drop_last());
        if k < init.len() && i < init[k].len() {
            lemma_pieces_chars(name.drop_last(), k, i);
            let at = choose|at: int|
                0 <= at < name.drop_last().len() && name.drop_last()[at] == init[k][i];
            assert(name[at] == c);
        } else {
            assert(name[name.len() - 1] == c);
        }
    }
}

/// Whether two names differ at most in which separators they use.
pub open spec fn same_but_for_separators(a: Seq<char>, b: Seq<char>) -> bool {
    a.len() == b.len() && forall|i: int|
        0 <= i < a.len() ==> #[trigger] a[i] == b[i] || (is_separator(a[i]) && is_separator(b[i]))
}

/// Slashes and backslashes end the same pieces.
proof fn lemma_same_pieces(a: Seq<char>, b: Seq<char>)
    requires
        same_but_for_separators(a, b),
    ensures
        pieces(a) == pieces(b),
    decreases a.len(),
{
    if a.len() > 0 {
        let p = a.drop_last();
        let q = b.drop_last();
        assert forall|i: int| 0 <= i < p.len() implies #[trigger] p[i] == q[i] || (is_separator(
            p[i],
        ) && is_separator(q[i])) by {
            assert(p[i] == a[i]);
        }
        lemma_same_pieces(p, q);
        assert(a[a.len() - 1] == a.last());
    }
}

/// A name with a control character has one whatever its separators.
proof fn lemma_same_control(a: Seq<char>, b: Seq<char>)
    requires
        same_but_for_separators(a, b),
        has_control(a),
    ensures
        has_control(b),
{
    let i = choose|i: int| 0 <= i < a.len() && is_control(#[trigger] a[i]);
    assert(is_control(b[i]));
}

/// Backslashes are separators just as slashes are: with any of one replaced by
/// the other, a name is as safe, has the same pieces, and is joined with the
/// same results.
pub proof fn backslashes_are_separators(a: Seq<char>, b: Seq<char>)
    requires
        same_but_for_separators(a, b),
    ensures
        is_safe_name(a) == is_safe_name(b),
        named_pieces(a) == named_pieces(b),
        forall|root: Seq<Seq<u8>>, joined: Option<Seq<Seq<u8>>>| #[trigger]
            is_join(root, a, joined) == is_join(root, b, joined),
{
    lemma_same_pieces(a, b);
    assert(same_but_for_separators(b, a)) by {
        assert forall|i: int| 0 <= i < b.len() implies #[trigger] b[i] == a[i] || (is_separator(
            b[i],
        ) && is_separator(a[i])) by {
            assert(a[i] == a[i]);
        }
    }
    if has_control(a) {
        lemma_same_control(a, b);
    }
    if has_control(b) {
        lemma_same_control(b, a);
    }
    if a.len() > 0 {
        assert(is_separator(a[0]) == is_separator(b[0]));
    }
    if a.len() > 1 {
        assert(a[1] == b[1] || (is_separator(a[1]) && is_separator(b[1])));
    }
    assert(is_safe_name(a) == is_safe_name(b));
    assert(named_pieces(a) == named_pieces(b));
    assert(names_a_drive(a) == names_a_drive(b));
}

/// What a separator splits has the pieces of both sides.
proof fn lemma_pieces_of_both(a: Seq<char>, b: Seq<char>)
    ensures
        pieces(a + seq!['/'] + b) == pieces(a) + pieces(b),
    decreases b.len(),
{
    let whole = a + seq!['/'] + b;
    if b.len() == 0 {
        assert(whole.drop_last() =~= a);
        assert(pieces(whole) =~= pieces(a) + pieces(b));
    } else {
        let init = b.drop_last();
        lemma_pieces_of_both(a, init);
        lemma_pieces_nonempty(init);
        assert(whole.drop_last() =~= a + seq!['/'] + init);
        assert(whole.last() == b.last());
        assert((pieces(a) + pieces(init)).drop_last() =~= pieces(a) + pieces(init).drop_last());
        assert(pieces(whole) =~= pieces(a) + pieces(b));
    }
}

/// A name of two names holds the pieces of the first and then those of the
/// second, and is safe where both are.
pub proof fn name_of_two_names(a: Seq<char>, b: Seq<char>)
    ensures
        named_pieces(a + seq!['/'] + b) == named_pieces(a) + named_pieces(b),
        is_safe_name(a) && is_safe_name(b) ==> is_safe_name(a + seq!['/'] + b),
{
    let whole = a + seq!['/'] + b;
    let pred = |piece: Seq<char>| is_named(piece);
    lemma_pieces_of_both(a, b);
    Seq::filter_distributes_over_add(pieces(a), pieces(b), pred);
    if is_safe_name(a) && is_safe_name(b) {
        assert forall|i: int| 0 <= i < whole.len() implies !is_control(#[trigger] whole[i]) by {
            if i < a.len() {
                assert(whole[i] == a[i]);
            } else if i > a.len() {
                assert(whole[i] == b[i - a.len() - 1]);
            }
        }
        assert forall|i: int| 0 <= i < pieces(whole).len() implies !is_climb(
            #[trigger] pieces(whole)[i],
        ) by {
            if i < pieces(a).len() {
                assert(pieces(whole)[i] == pieces(a)[i]);
            } else {
                assert(pieces(whole)[i] == pieces(b)[i - pieces(a).len()]);
            }
        }
        assert(whole[0] == a[0]);
    }
}

/// A text without separators is one piece.
proof fn lemma_single_piece(text: Seq<char>)
    requires
        !has_separator(text),
    ensures
        pieces(text) == seq![text],
    decreases text.len(),
{
    if text.len() > 0 {
        let init = text.drop_last();
        assert(!is_separator(text[text.len() - 1]));
        assert forall|i: int| 0 <= i < init.len() implies !is_separator(#[trigger] init[i]) by {
            assert(init[i] == text[i]);
        }
        lemma_single_piece(init);
        assert(init.push(text.last()) =~= text);
        assert(pieces(text) =~= seq![text]);
    } else {
        assert(text =~= Seq::empty());
    }
}

/// A safe component is a safe name of one piece, unless its second byte is a
/// colon, as in a drive prefix.
pub proof fn safe_component_joins_as_itself(value: Seq<char>)
    requires
        is_safe_component(value),
    ensures
        is_safe_name(value) <==> !has_early_colon(value),
        named_pieces(value) == seq![value],
{
    lemma_single_piece(value);
    assert(!is_separator(value[0]));
    reveal(Seq::filter);
    let pred = |piece: Seq<char>| is_named(piece);
    assert(seq![value].drop_last() =~= Seq::<Seq<char>>::empty());
    assert(seq![value].drop_last().filter(pred) =~= Seq::<Seq<char>>::empty());
    assert(named_pieces(value) =~= seq![value]);
}

/// A name without slashes and backslashes is one piece, and names something
/// unless it is empty or a dot.
pub proof fn name_without_separators_is_one_piece(name: Seq<char>)
    requires
        forall|i: int| 0 <= i < name.len() ==> (#[trigger] name[i]) != '/' && name[i] != '\\',
    ensures
        pieces(name) == seq![name],
        name.len() == 0 || name == seq!['.'] ==> named_pieces(name).len() == 0,
        name.len() > 0 && name != seq!['.'] ==> named_pieces(name) == seq![name],
{
    lemma_single_piece(name);
    reveal(Seq::filter);
    let pred = |piece: Seq<char>| is_named(piece);
    assert(seq![name].drop_last() =~= Seq::<Seq<char>>::empty());
    assert(seq![name].drop_last().filter(pred) =~= Seq::<Seq<char>>::empty());
    if name.len() > 0 && name != seq!['.'] {
        assert(named_pieces(name) =~= seq![name]);
    }
}

/// A slash or a backslash parts a name: the pieces are those before it and then
/// those after it.
pub proof fn separators_part_a_name(a: Seq<char>, separator: char, b: Seq<char>)
    requires
        separator == '/' || separator == '\\',
    ensures
        pieces(a + seq![separator] + b) == pieces(a) + pieces(b),
        named_pieces(a + seq![separator] + b) == named_pieces(a) + named_pieces(b),
{
    let slashed = a + seq!['/'] + b;
    let given = a + seq![separator] + b;
    assert forall|i: int| 0 <= i < slashed.len() implies #[trigger] slashed[i] == given[i] || (
    is_separator(slashed[i]) && is_separator(given[i])) by {
        if i == a.len() {
            assert(given[i] == separator);
        }
    }
    lemma_same_pieces(slashed, given);
    lemma_pieces_of_both(a, b);
    name_of_two_names(a, b);
}

/// A name is refused exactly if it is empty, starts with a separator, has a
/// colon as its second byte, holds a control character, or has a piece `..`.
pub proof fn names_are_refused_for_these_reasons_alone(name: Seq<char>)
    ensures
        !is_safe_name(name) <==> {
            ||| name.len() == 0
            ||| name[0] == '/' || name[0] == '\\'
            ||| name.len() >= 2 && name[0] <= '\u{7f}' && name[1] == ':'
            ||| exists|i: int|
                0 <= i < name.len() && ((#[trigger] name[i]) <= '\u{1f}' || ('\u{7f}' <= name[i]
                    && name[i] <= '\u{9f}'))
            ||| pieces(name).contains(seq!['.', '.'])
        },
{
    if exists|i: int|
        0 <= i < name.len() && ((#[trigger] name[i]) <= '\u{1f}' || ('\u{7f}' <= name[i] && name[i]
            <= '\u{9f}')) {
        let i = choose|i: int|
            0 <= i < name.len() && ((#[trigger] name[i]) <= '\u{1f}' || ('\u{7f}' <= name[i]
                && name[i] <= '\u{9f}'));
        assert(is_control(name[i]));
    }
    if pieces(name).contains(seq!['.', '.']) {
        let i = choose|i: int| 0 <= i < pieces(name).len() && pieces(name)[i] == seq!['.', '.'];
        assert(is_climb(pieces(name)[i]));
    }
}

/// A component is refused exactly if it is empty, a dot or two, or holds a
/// separator or a control character.
pub proof fn components_are_refused_for_these_reasons_alone(value: Seq<char>)
    ensures
        !is_safe_component(value) <==> {
            ||| value.len() == 0
            ||| value == seq!['.']
            ||| value == seq!['.', '.']
            ||| value.contains('/')
            ||| value.contains('\\')
            ||| exists|i: int|
                0 <= i < value.len() && ((#[trigger] value[i]) <= '\u{1f}' || ('\u{7f}'
                    <= value[i] && value[i] <= '\u{9f}'))
        },
{
    if value.contains('/') {
        let i = choose|i: int| 0 <= i < value.len() && value[i] == '/';
        assert(is_separator(value[i]));
    }
    if value.contains('\\') {
        let i = choose|i: int| 0 <= i < value.len() && value[i] == '\\';
        assert(is_separator(value[i]));
    }
    if has_separator(value) {
        let i = choose|i: int| 0 <= i < value.len() && is_separator(#[trigger] value[i]);
        assert(value.contains(value[i]));
    }
    if exists|i: int|
        0 <= i < value.len() && ((#[trigger] value[i]) <= '\u{1f}' || ('\u{7f}' <= value[i]
            && value[i] <= '\u{9f}')) {
        let i = choose|i: int|
            0 <= i < value.len() && ((#[trigger] value[i]) <= '\u{1f}' || ('\u{7f}' <= value[i]
                && value[i] <= '\u{9f}'));
        assert(is_control(value[i]));
    }
}

/// The components of a result are those of its path.
pub proof fn joined_parts_are_those_of_the_path(path: PathBuf)
    ensures
        joined_parts(Some(path)) == Some(buf_parts(path)),
        joined_parts(None) is None,
{
}

/// What is joined begins with the root, and only safe names are joined.
pub proof fn joined_path_begins_with_the_root(
    root: Seq<Seq<u8>>,
    name: Seq<char>,
    path: Seq<Seq<u8>>,
)
    requires
        is_join(root, name, Some(path)),
    ensures
        is_safe_name(name),
        path.len() >= root.len(),
        forall|i: int| 0 <= i < root.len() ==> #[trigger] path[i] == root[i],
{
}

/// Beneath a root that starts neither with a backslash nor with a drive, such as
/// every absolute path of Unix, what is joined is the root, then the pieces of
/// the name, and nothing else. So it is beneath the root of a drive and beneath
/// a network share.
pub proof fn nothing_but_the_pieces_is_joined(
    root: Seq<Seq<u8>>,
    name: Seq<char>,
    path: Seq<Seq<u8>>,
)
    requires
        is_join(root, name, Some(path)),
        root.len() > 0,
        root[0].len() == 0 || root[0][0] != 0x5c || (root[0].len() > 4 && root[0][1] == 0x5c
            && root[0][2] != 0x3f),
        !(root[0].len() == 2 && root[0][1] == 0x3a) || (root.len() > 1 && root[1].len() > 0
            && root[1][0] == 0x5c),
    ensures
        path.len() == root.len() + named_pieces(name).len(),
        forall|i: int| 0 <= i < root.len() ==> #[trigger] path[i] == root[i],
        forall|i: int|
            0 <= i < named_pieces(name).len() ==> path[root.len() + i] == encode_utf8(
                #[trigger] named_pieces(name)[i],
            ),
{
}

/// A safe name is joined, whatever the number and the length of its pieces, if
/// none of them has a drive prefix, and the root does not start with a backslash
/// or starts with a network share: then the result is the root and the pieces.
pub proof fn safe_names_are_joined(
    root: Seq<Seq<u8>>,
    name: Seq<char>,
    joined: Option<Seq<Seq<u8>>>,
)
    requires
        is_join(root, name, joined),
        is_safe_name(name),
        forall|i: int|
            0 <= i < named_pieces(name).len() ==> {
                let piece = #[trigger] named_pieces(name)[i];
                !(piece.len() >= 2 && piece[1] == ':' && (('a' <= piece[0] && piece[0] <= 'z') || (
                'A' <= piece[0] && piece[0] <= 'Z')))
            },
        root.len() > 0 ==> root[0].len() == 0 || root[0][0] != 0x5c || (root[0].len() > 4
            && root[0][1] == 0x5c && root[0][2] != 0x3f),
    ensures
        joined is Some,
        joined->0.len() == root.len() + named_pieces(name).len(),
        forall|i: int| 0 <= i < root.len() ==> #[trigger] joined->0[i] == root[i],
        forall|i: int|
            0 <= i < named_pieces(name).len() ==> joined->0[root.len() + i] == encode_utf8(
                #[trigger] named_pieces(name)[i],
            ),
{
}

/// Only a backslash is encoded with a backslash as its first byte.
proof fn lemma_first_byte(text: Seq<char>)
    requires
        text.len() > 0,
        text[0] != '\\',
    ensures
        encode_utf8(text).len() > 0,
        encode_utf8(text)[0] != 0x5c,
{
    let c = text[0] as u32;
    vstd::utf8::char_u32_cast(text[0], c);
    assert(c != 0x5c) by {
        assert(0x5cu32 as char == '\\');
    }
    assert(c <= 0x7f && c != 0x5c ==> (c & 0x7f) as u8 != 0x5c) by (bit_vector);
    assert(0xc0 | ((c >> 6) & 0x1f) as u8 != 0x5c) by (bit_vector);
    assert(0xe0 | ((c >> 12) & 0x0f) as u8 != 0x5c) by (bit_vector);
    assert(0xf0 | ((c >> 18) & 0x7) as u8 != 0x5c) by (bit_vector);
}

/// The pieces of a safe name do not lead with a backslash.
proof fn lemma_pieces_lead(name: Seq<char>)
    requires
        is_safe_name(name),
    ensures
        !leads_with_backslash(encoded(named_pieces(name))),
{
    let named = named_pieces(name);
    if named.len() > 0 {
        named_pieces_are_safe_components(name, 0);
        assert(!is_separator(named[0][0]));
        lemma_first_byte(named[0]);
        assert(encoded(named)[0] == encode_utf8(named[0]));
    }
}

/// Joining a name that joins plainly, or is not safe, has one outcome. Beneath
/// an anchored root every name has at most one result.
pub proof fn join_is_settled(
    root: Seq<Seq<u8>>,
    name: Seq<char>,
    a: Option<Seq<Seq<u8>>>,
    b: Option<Seq<Seq<u8>>>,
)
    requires
        is_join(root, name, a),
        is_join(root, name, b),
    ensures
        joins_plainly(root, name) || !is_safe_name(name) ==> a == b,
        is_anchored(root) && a is Some && b is Some ==> a == b,
{
}

/// Joining one name and then another beneath the result gives what joining
/// both at once may give.
pub proof fn joining_twice_is_joining_once(
    root: Seq<Seq<u8>>,
    a: Seq<char>,
    b: Seq<char>,
    p: Seq<Seq<u8>>,
    q: Seq<Seq<u8>>,
)
    requires
        is_join(root, a, Some(p)),
        is_join(p, b, Some(q)),
    ensures
        is_join(root, a + seq!['/'] + b, Some(q)),
{
    let whole = a + seq!['/'] + b;
    let (x, y) = (encoded(named_pieces(a)), encoded(named_pieces(b)));
    name_of_two_names(a, b);
    lemma_pieces_lead(a);
    lemma_pieces_lead(b);
    assert(encoded(named_pieces(whole)) =~= x + y);
    assert(root + (x + y) =~= (root + x) + y);
    assert forall|i: int| 0 <= i < named_pieces(a).len() implies named_pieces(whole)[i]
        == #[trigger] named_pieces(a)[i] by {}
    assert forall|i: int| 0 <= i < named_pieces(b).len() implies named_pieces(whole)[i
        + named_pieces(a).len()] == #[trigger] named_pieces(b)[i] by {}
    assert(root.is_prefix_of(q)) by {
        assert(forall|i: int| 0 <= i < root.len() ==> #[trigger] p[i] == root[i]);
        assert(forall|i: int| 0 <= i < p.len() ==> #[trigger] q[i] == p[i]);
    }
}

/// Join an untrusted archive or API supplied relative name beneath `root`.
/// Backslashes are treated as separators on every platform.
///
/// The result always begins with the components of `root`. It is `root`
/// followed by the pieces of the name, except where the platform takes a piece
/// or the root in a way of its own. [`is_join`] says in full what is promised;
/// where a piece other than the first has a drive prefix it leaves open whether
/// there is a result, and where the root has an open start, also what follows
/// the root in it.
pub fn safe_join(root: &Path, name: &str) -> (joined: Option<PathBuf>)
    ensures
        is_join(path_parts(root), name@, joined_parts(joined)),
{
    let parts = match relative_parts(name) {
        Some(parts) => parts,
        None => {
            return None;
        },
    };
    let ghost base = path_parts(root);
    let ghost named = named_pieces(name@);
    let ghost bytes = encoded(named);
    let mut output = to_path_buf(root);
    let mut i: usize = 0;
    assert(base + bytes.take(0) =~= base);
    while i < parts.len()
        invariant
            i <= parts.len(),
            is_safe_name(name@),
            base == path_parts(root),
            named == named_pieces(name@),
            texts(parts@) == named,
            bytes == encoded(named),
            i == 0 ==> buf_parts(output) == base,
            !has_open_start(base) ==> {
                ||| buf_parts(output) == base + bytes.take(i as int)
                ||| names_a_drive(name@) && is_drive_relative(buf_parts(output))
            },
        decreases parts.len() - i,
    {
        let ghost before_push = buf_parts(output);
        proof {
            assert(named[i as int] == parts[i as int]@);
            named_pieces_are_safe_components(name@, i as int);
            lemma_pieces_lead(name@);
            lemma_first_byte(named[i as int]);
            assert(!has_open_start(base) ==> !has_open_start(before_push));
            assert((base + bytes.take(i as int)).push(bytes[i as int]) =~= base + bytes.take(
                i + 1,
            ));
        }
        push(&mut output, parts[i]);
        i += 1;
    }
    assert(bytes.take(parts.len() as int) =~= bytes);
    assert(named.len() == 0 ==> base + bytes =~= base);
    if starts_with(&output, root) {
        Some(output)
    } else {
        None
    }
}

} // verus!
