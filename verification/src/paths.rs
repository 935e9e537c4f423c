use vstd::prelude::*;
use crate::text::{
    chars_eq, chars_of, concat_chars, join, join_chars, slice_chars, split_char, split_chars,
    starts_with, string_of, views,
};

verus! {

/// The path rules of the system the manager runs on: on Windows a path may
/// start with a drive (`C:`), paths are compared without regard to case and
/// written with `\`; elsewhere `/` separates and case matters.
#[derive(Debug, Clone, Copy, PartialEq, Eq, Structural)]
pub enum PathStyle {
    Windows,
    Unix,
}

/// Why a relative path inside a pack was refused.
#[derive(Debug, Clone, Copy, PartialEq, Eq)]
pub enum PathError {
    /// The path is absolute, carries a drive (on Windows), or climbs out with `..`.
    Illegal,
    /// The path names nothing.
    Empty,
}

/// Every `\` turned into `/`.
pub open spec fn slashed(s: Seq<char>) -> Seq<char> {
    s.map_values(|c: char| if c == '\\' { '/' } else { c })
}

pub open spec fn is_ascii_alpha(c: char) -> bool {
    ('a' <= c && c <= 'z') || ('A' <= c && c <= 'Z')
}

/// Does the path start with a drive such as `C:`?
pub open spec fn has_drive(n: Seq<char>) -> bool {
    n.len() >= 2 && is_ascii_alpha(n[0]) && n[1] == ':'
}

pub open spec fn dot_dot() -> Seq<char> {
    seq!['.', '.']
}

/// A piece of a path that names something: neither empty nor `.`.
pub open spec fn keeps_segment(p: Seq<char>) -> bool {
    p.len() > 0 && p != seq!['.']
}

/// The pieces of a path between `/` or `\`.
pub open spec fn path_pieces(s: Seq<char>) -> Seq<Seq<char>> {
    split_char(slashed(s), '/')
}

/// The named segments of a path, in order.
pub open spec fn path_segments(s: Seq<char>) -> Seq<Seq<char>> {
    path_pieces(s).filter(|p: Seq<char>| keeps_segment(p))
}

/// Is the path absolute, on a drive (on Windows), or does it climb with `..`?
pub open spec fn illegal_path(s: Seq<char>, style: PathStyle) -> bool {
    let n = slashed(s);
    ||| (n.len() > 0 && n[0] == '/')
    ||| (style == PathStyle::Windows && has_drive(n))
    ||| exists|k: int| 0 <= k < path_pieces(s).len() && #[trigger] path_pieces(s)[k] == dot_dot()
}

/// A relative path inside a pack, its segments joined by `/`; none when the
/// path is illegal or names nothing.
pub open spec fn safe_relative(s: Seq<char>, style: PathStyle) -> Option<Seq<char>> {
    if illegal_path(s, style) || path_segments(s).len() == 0 {
        None
    } else {
        Some(join(path_segments(s), seq!['/']))
    }
}

/// Every `\` of a character vector turned into `/`.
pub fn slashed_chars(s: &Vec<char>) -> (r: Vec<char>)
    ensures
        r@ == slashed(s@),
{
    let mut r: Vec<char> = Vec::new();
    let mut i: usize = 0;
    while i < s.len()
        invariant
            i <= s.len(),
            r@ == slashed(s@.take(i as int)),
        decreases s.len() - i,
    {
        let c = s[i];
        r.push(if c == '\\' { '/' } else { c });
        i = i + 1;
        assert(slashed(s@.take(i as int)) =~= slashed(s@.take(i - 1)).push(
            if c == '\\' { '/' } else { c },
        ));
    }
    assert(s@.take(s.len() as int) =~= s@);
    r
}

fn is_dot_dot(p: &Vec<char>) -> (r: bool)
    ensures
        r == (p@ == dot_dot()),
{
    let d = vec!['.', '.'];
    chars_eq(p, &d)
}

fn keeps_segment_exec(p: &Vec<char>) -> (r: bool)
    ensures
        r == keeps_segment(p@),
{
    let d = vec!['.'];
    assert(d@ == seq!['.']);
    p.len() > 0 && !chars_eq(p, &d)
}

/// Checks a path taken from a pack or an archive and gives it back as a relative
/// path (`safe_relative_path`): `\` counts as `/`; empty and `.` segments are
/// dropped; a leading `/`, a `..` segment or, on Windows, a drive such as `C:`
/// make it illegal; a path left with no segment is empty.
pub fn safe_relative_path(path_text: &str, style: PathStyle) -> (r: Result<String, PathError>)
    ensures
        match r {
            Ok(p) => safe_relative(path_text@, style) == Some(p@),
            Err(PathError::Illegal) => illegal_path(path_text@, style),
            Err(PathError::Empty) => !illegal_path(path_text@, style) && path_segments(
                path_text@,
            ).len() == 0,
        },
{
    let raw = chars_of(path_text);
    let n = slashed_chars(&raw);
    if n.len() > 0 && n[0] == '/' {
        return Err(PathError::Illegal);
    }
    if style == PathStyle::Windows && n.len() >= 2 && (('a' <= n[0] && n[0] <= 'z') || ('A'
        <= n[0] && n[0] <= 'Z')) && n[1] == ':' {
        return Err(PathError::Illegal);
    }
    let pieces = split_chars(&n, '/');
    let ghost ps = views(pieces@);
    let ghost keep = |p: Seq<char>| keeps_segment(p);
    let mut kept: Vec<Vec<char>> = Vec::new();
    let mut i: usize = 0;
    while i < pieces.len()
        invariant
            i <= pieces.len(),
            ps == views(pieces@),
            ps == path_pieces(path_text@),
            keep == (|p: Seq<char>| keeps_segment(p)),
            views(kept@) == ps.take(i as int).filter(keep),
            forall|k: int| 0 <= k < i ==> #[trigger] ps[k] != dot_dot(),
        decreases pieces.len() - i,
    {
        if is_dot_dot(&pieces[i]) {
            assert(ps[i as int] == dot_dot());
            return Err(PathError::Illegal);
        }
        let ghost prev = ps.take(i as int);
        assert(ps.take(i + 1).drop_last() =~= prev);
        reveal(Seq::filter);
        if keeps_segment_exec(&pieces[i]) {
            let piece = slice_all(&pieces[i]);
            kept.push(piece);
            assert(views(kept@) =~= prev.filter(keep).push(ps[i as int]));
        } else {
            assert(views(kept@) =~= prev.filter(keep));
        }
        i = i + 1;
    }
    assert(ps.take(pieces.len() as int) =~= ps);
    assert(keep =~= (|p: Seq<char>| keeps_segment(p)));
    assert(views(kept@) == path_segments(path_text@));
    assert(!illegal_path(path_text@, style)) by {
        assert forall|k: int| 0 <= k < path_pieces(path_text@).len() implies #[trigger] path_pieces(
            path_text@,
        )[k] != dot_dot() by {
            assert(ps[k] != dot_dot());
        }
    }
    if kept.len() == 0 {
        return Err(PathError::Empty);
    }
    let sep = vec!['/'];
    assert(sep@ == seq!['/']);
    let joined = join_chars(&kept, &sep);
    Ok(string_of(joined.as_slice()))
}

fn slice_all(v: &Vec<char>) -> (r: Vec<char>)
    ensures
        r@ == v@,
{
    let mut r: Vec<char> = Vec::new();
    let mut i: usize = 0;
    while i < v.len()
        invariant
            i <= v.len(),
            r@ == v@.take(i as int),
        decreases v.len() - i,
    {
        r.push(v[i]);
        i = i + 1;
    }
    assert(v@.take(v.len() as int) =~= v@);
    r
}

/// The verbatim UNC prefix `\\?\UNC\`.
pub open spec fn verbatim_unc() -> Seq<char> {
    seq!['\\', '\\', '?', '\\', 'U', 'N', 'C', '\\']
}

/// The verbatim prefix `\\?\`.
pub open spec fn verbatim() -> Seq<char> {
    seq!['\\', '\\', '?', '\\']
}

/// A path as shown to the user: on Windows `\\?\UNC\server\share` becomes
/// `\\server\share` and `\\?\C:\x` becomes `C:\x`; anything else stays.
pub open spec fn display_path(raw: Seq<char>, style: PathStyle) -> Seq<char> {
    if style == PathStyle::Unix {
        raw
    } else if verbatim_unc().is_prefix_of(raw) {
        seq!['\\', '\\'] + raw.skip(8)
    } else if verbatim().is_prefix_of(raw) {
        raw.skip(4)
    } else {
        raw
    }
}

/// A path as shown to the user (`simplify_for_display`).
pub fn simplify_for_display(raw: &str, style: PathStyle) -> (r: String)
    ensures
        r@ == display_path(raw@, style),
{
    let s = chars_of(raw);
    if style == PathStyle::Unix {
        return string_of(s.as_slice());
    }
    let unc = vec!['\\', '\\', '?', '\\', 'U', 'N', 'C', '\\'];
    let plain = vec!['\\', '\\', '?', '\\'];
    assert(unc@ == verbatim_unc());
    assert(plain@ == verbatim());
    if starts_with(&s, &unc) {
        let rest = slice_chars(&s, 8, s.len());
        let head = vec!['\\', '\\'];
        let joined = concat_chars(&head, &rest);
        assert(rest@ == s@.skip(8));
        return string_of(joined.as_slice());
    }
    if starts_with(&s, &plain) {
        let rest = slice_chars(&s, 4, s.len());
        assert(rest@ == s@.skip(4));
        return string_of(rest.as_slice());
    }
    string_of(s.as_slice())
}

/// Why a directory is not a game instance.
#[derive(Debug, Clone, Copy, PartialEq, Eq)]
pub enum GameDirError {
    /// The path does not exist.
    Missing,
    /// The path is not a directory.
    NotDirectory,
    /// Neither `game.exe` nor `gamemd.exe` is in it.
    NoGame,
}

/// Whether a directory can be an instance, the checks in their order, given
/// what the caller found on disk.
pub fn validate_instance_game_dir(
    exists: bool,
    is_dir: bool,
    has_game_exe: bool,
    has_gamemd_exe: bool,
) -> (r: Result<(), GameDirError>)
    ensures
        match r {
            Ok(()) => exists && is_dir && (has_game_exe || has_gamemd_exe),
            Err(GameDirError::Missing) => !exists,
            Err(GameDirError::NotDirectory) => exists && !is_dir,
            Err(GameDirError::NoGame) => exists && is_dir && !has_game_exe && !has_gamemd_exe,
        },
{
    if !exists {
        return Err(GameDirError::Missing);
    }
    if !is_dir {
        return Err(GameDirError::NotDirectory);
    }
    if !has_game_exe && !has_gamemd_exe {
        return Err(GameDirError::NoGame);
    }
    Ok(())
}

} // verus!
