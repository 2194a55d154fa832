//! Where findings may be written: never under a system directory.

use vstd::prelude::*;
use crate::text::{
    eq_ignore_ascii_case, eq_ignore_ascii_case_text, lemma_split_nonempty, push_char, same_text,
    split_on, split_text,
};

verus! {

/// `path` with every `/` turned into `\`.
pub open spec fn unify_separators(path: Seq<char>) -> Seq<char> {
    Seq::new(path.len(), |i: int| if path[i] == '/' { '\\' } else { path[i] })
}

/// A drive such as `C:`.
pub open spec fn is_drive(p: Seq<char>) -> bool {
    &&& p.len() == 2
    &&& p[1] == ':'
    &&& (('a' <= p[0] && p[0] <= 'z') || ('A' <= p[0] && p[0] <= 'Z'))
}

/// The components of a path once empty ones and `.` are dropped and each
/// `..` removes the component before it (none at the root).
pub open spec fn resolve_components(pieces: Seq<Seq<char>>) -> Seq<Seq<char>>
    decreases pieces.len(),
{
    if pieces.len() == 0 {
        Seq::empty()
    } else {
        let r = resolve_components(pieces.drop_last());
        let p = pieces.last();
        if p.len() == 0 || p == "."@ {
            r
        } else if p == ".."@ {
            if r.len() > 0 {
                r.drop_last()
            } else {
                r
            }
        } else {
            r.push(p)
        }
    }
}

/// The name of a system directory at the root of a drive, in any ASCII case.
pub open spec fn is_system_dir_name(p: Seq<char>) -> bool {
    ||| eq_ignore_ascii_case(p, "windows"@)
    ||| eq_ignore_ascii_case(p, "program files"@)
    ||| eq_ignore_ascii_case(p, "program files (x86)"@)
}

/// `path` lies under a system directory: it starts at a root (a drive such
/// as `C:`, or a separator), and its first component, once separators are
/// unified and `.` and `..` resolved, is `Windows`, `Program Files` or
/// `Program Files (x86)`.
pub open spec fn under_system_dir(path: Seq<char>) -> bool {
    let pieces = split_on(unify_separators(path), '\\');
    let rest = resolve_components(pieces.skip(1));
    &&& pieces[0].len() == 0 || is_drive(pieces[0])
    &&& rest.len() > 0
    &&& is_system_dir_name(rest[0])
}

fn is_drive_text(p: &str) -> (b: bool)
    ensures
        b == is_drive(p@),
{
    if p.unicode_len() != 2 || p.get_char(1) != ':' {
        return false;
    }
    let c = p.get_char(0);
    ('a' <= c && c <= 'z') || ('A' <= c && c <= 'Z')
}

fn is_system_dir_name_text(p: &str) -> (b: bool)
    ensures
        b == is_system_dir_name(p@),
{
    eq_ignore_ascii_case_text(p, "windows") || eq_ignore_ascii_case_text(p, "program files")
        || eq_ignore_ascii_case_text(p, "program files (x86)")
}

fn unify_separators_text(path: &str) -> (r: String)
    ensures
        r@ == unify_separators(path@),
{
    let n = path.unicode_len();
    let mut r = String::new();
    let mut i: usize = 0;
    while i < n
        invariant
            i <= n,
            n == path@.len(),
            r@.len() == i,
            forall|k: int| 0 <= k < i ==> #[trigger] r@[k] == (if path@[k] == '/' {
                '\\'
            } else {
                path@[k]
            }),
        decreases n - i,
    {
        let c = path.get_char(i);
        if c == '/' {
            push_char(&mut r, '\\');
        } else {
            push_char(&mut r, c);
        }
        i = i + 1;
    }
    assert(r@ =~= unify_separators(path@));
    r
}

/// Whether writing to `path` would write under a system directory, which is
/// refused.
pub fn is_under_system_dir(path: &str) -> (r: bool)
    ensures
        r == under_system_dir(path@),
{
    let unified = unify_separators_text(path);
    let pieces = split_text(unified.as_str(), '\\');
    let ghost all = split_on(unify_separators(path@), '\\');
    proof {
        lemma_split_nonempty(unify_separators(path@), '\\');
    }
    if !(pieces[0].unicode_len() == 0 || is_drive_text(pieces[0])) {
        return false;
    }
    let mut stack: Vec<&str> = Vec::new();
    let mut k: usize = 1;
    assert(all.subrange(1, 1) =~= Seq::<Seq<char>>::empty());
    while k < pieces.len()
        invariant
            1 <= k <= pieces.len(),
            pieces.len() == all.len(),
            forall|q: int| 0 <= q < pieces.len() ==> #[trigger] pieces[q]@ == all[q],
            stack.len() == resolve_components(all.subrange(1, k as int)).len(),
            forall|q: int|
                0 <= q < stack.len() ==> #[trigger] stack[q]@ == resolve_components(
                    all.subrange(1, k as int),
                )[q],
        decreases pieces.len() - k,
    {
        let p = pieces[k];
        assert(all.subrange(1, k + 1).drop_last() =~= all.subrange(1, k as int));
        assert(all.subrange(1, k + 1).last() == p@);
        if p.unicode_len() == 0 || same_text(p, ".") {
        } else if same_text(p, "..") {
            if stack.len() > 0 {
                stack.pop();
            }
        } else {
            stack.push(p);
        }
        k = k + 1;
    }
    assert(all.subrange(1, all.len() as int) =~= all.skip(1));
    stack.len() > 0 && is_system_dir_name_text(stack[0])
}

} // verus!
