//! Unix file paths as text: their components, parents, file names and normal form.
//!
//! A path is a sequence of components. The root directory is the component `/`;
//! repeated slashes and `.` between components stand for nothing, and only a `.`
//! that begins a relative path is a component of its own.
use vstd::prelude::*;

use crate::text;
use crate::text::CharClass;

verus! {

// ── Specification ─────────────────────────────────────────────────────────

/// The component that stands for the root directory.
pub open spec fn root() -> Seq<char> {
    seq!['/']
}

/// The component that stands for the directory itself.
pub open spec fn dot() -> Seq<char> {
    seq!['.']
}

/// The component that stands for the directory above.
pub open spec fn dot_dot() -> Seq<char> {
    seq!['.', '.']
}

/// Whether the path begins at the root directory.
pub open spec fn is_rooted(path: Seq<char>) -> bool {
    path.len() > 0 && path[0] == '/'
}

/// The text between the slashes.
pub open spec fn segments(path: Seq<char>) -> Seq<Seq<char>> {
    text::split_at_class(path, CharClass::Is('/'))
}

/// Whether the last segment is a component: it is not empty, and `.` only where it is the first.
pub open spec fn last_counts(segs: Seq<Seq<char>>) -> bool {
    segs.last().len() > 0 && (segs.last() != dot() || segs.len() == 1)
}

/// The segments that are components.
pub open spec fn kept(segs: Seq<Seq<char>>) -> Seq<Seq<char>>
    decreases segs.len(),
{
    if segs.len() == 0 {
        Seq::empty()
    } else if last_counts(segs) {
        kept(segs.drop_last()).push(segs.last())
    } else {
        kept(segs.drop_last())
    }
}

/// The components of a path.
pub open spec fn components(path: Seq<char>) -> Seq<Seq<char>> {
    if is_rooted(path) {
        seq![root()] + kept(segments(path))
    } else {
        kept(segments(path))
    }
}

/// The components after `.` is left out and each `..` has taken away what stands before it.
pub open spec fn resolved(comps: Seq<Seq<char>>) -> Seq<Seq<char>>
    decreases comps.len(),
{
    if comps.len() == 0 {
        Seq::empty()
    } else {
        let before = resolved(comps.drop_last());
        if comps.last() == dot_dot() {
            if before.len() == 0 {
                before
            } else {
                before.drop_last()
            }
        } else if comps.last() == dot() {
            before
        } else {
            before.push(comps.last())
        }
    }
}

/// The path with these components.
pub open spec fn path_text(comps: Seq<Seq<char>>) -> Seq<char>
    decreases comps.len(),
{
    if comps.len() == 0 {
        Seq::empty()
    } else {
        joined_path(path_text(comps.drop_last()), comps.last())
    }
}

/// The second path as seen from the first: the second alone where it is rooted.
pub open spec fn joined_path(base: Seq<char>, path: Seq<char>) -> Seq<char> {
    if is_rooted(path) || base.len() == 0 {
        path
    } else if base.last() == '/' {
        base + path
    } else {
        base + seq!['/'] + path
    }
}

/// The normal form of a path: no `.`, no `..`, no repeated slash.
pub open spec fn normalized(path: Seq<char>) -> Seq<char> {
    path_text(resolved(components(path)))
}

/// Whether the first list begins with the second.
pub open spec fn begins_with(comps: Seq<Seq<char>>, prefix: Seq<Seq<char>>) -> bool {
    prefix.len() <= comps.len() && comps.take(prefix.len() as int) == prefix
}

/// The segments without those at the end that are not components.
pub open spec fn drop_skipped(segs: Seq<Seq<char>>) -> Seq<Seq<char>>
    decreases segs.len(),
{
    if segs.len() == 0 || last_counts(segs) {
        segs
    } else {
        drop_skipped(segs.drop_last())
    }
}

/// The path without its last component; nothing where there is none but the root.
pub open spec fn parent(path: Seq<char>) -> Option<Seq<char>> {
    let segs = drop_skipped(segments(path));
    if segs.len() == 0 {
        None
    } else {
        let above = drop_skipped(segs.drop_last());
        if above.len() > 0 {
            Some(text::joined(above, root()))
        } else if is_rooted(path) {
            Some(root())
        } else {
            Some(Seq::empty())
        }
    }
}

/// The last component, where it is a name.
pub open spec fn file_name(path: Seq<char>) -> Option<Seq<char>> {
    let segs = drop_skipped(segments(path));
    if segs.len() == 0 || segs.last() == dot() || segs.last() == dot_dot() {
        None
    } else {
        Some(segs.last())
    }
}

/// Whether these are the components of a path in normal form: names, after the root or not.
pub open spec fn is_normal(comps: Seq<Seq<char>>) -> bool {
    forall|k: int|
        0 <= k < comps.len() ==> {
            ||| k == 0 && #[trigger] comps[k] == root()
            ||| is_name(comps[k])
        }
}

/// Whether the text can be the name of a file.
pub open spec fn is_name(s: Seq<char>) -> bool {
    s.len() > 0 && s != dot() && s != dot_dot() && !s.contains('/')
}

// ── Properties ────────────────────────────────────────────────────────────

proof fn lemma_kept_names(segs: Seq<Seq<char>>)
    requires
        forall|k: int| 0 <= k < segs.len() ==> !(#[trigger] segs[k]).contains('/'),
    ensures
        forall|k: int|
            0 <= k < kept(segs).len() ==> (#[trigger] kept(segs)[k]).len() > 0 && !kept(
                segs,
            )[k].contains('/'),
    decreases segs.len(),
{
    if segs.len() > 0 {
        assert forall|k: int| 0 <= k < segs.len() - 1 implies !(
        #[trigger] segs.drop_last()[k]).contains('/') by {
            assert(segs.drop_last()[k] == segs[k]);
        }
        lemma_kept_names(segs.drop_last());
        assert(!segs[segs.len() - 1].contains('/'));
        let before = kept(segs.drop_last());
        assert forall|k: int| 0 <= k < kept(segs).len() implies (#[trigger] kept(segs)[k]).len() > 0
            && !kept(segs)[k].contains('/') by {
            if k < before.len() {
                assert(kept(segs)[k] == before[k]);
            }
        }
    }
}

/// A component is the root, in front, or text without a slash.
proof fn lemma_components_shape(path: Seq<char>)
    ensures
        forall|k: int|
            0 <= k < components(path).len() ==> {
                ||| k == 0 && #[trigger] components(path)[k] == root()
                ||| components(path)[k].len() > 0 && !components(path)[k].contains('/')
            },
{
    let segs = segments(path);
    assert forall|k: int| 0 <= k < segs.len() implies !(#[trigger] segs[k]).contains('/') by {
        if segs[k].contains('/') {
            let i = choose|i: int| 0 <= i < segs[k].len() && segs[k][i] == '/';
            text::lemma_split_pieces(path, CharClass::Is('/'), k, i);
        }
    }
    lemma_kept_names(segs);
    if is_rooted(path) {
        assert forall|k: int| 1 <= k < components(path).len() implies (
        #[trigger] components(path)[k]).len() > 0 && !components(path)[k].contains('/') by {
            assert(components(path)[k] == kept(segs)[k - 1]);
        }
    }
}

proof fn lemma_resolved_normal(comps: Seq<Seq<char>>)
    requires
        forall|k: int|
            0 <= k < comps.len() ==> {
                ||| k == 0 && #[trigger] comps[k] == root()
                ||| comps[k].len() > 0 && !comps[k].contains('/')
            },
    ensures
        is_normal(resolved(comps)),
        resolved(comps).len() <= comps.len(),
    decreases comps.len(),
{
    if comps.len() > 0 {
        let init = comps.drop_last();
        assert forall|k: int| 0 <= k < init.len() implies {
            ||| k == 0 && #[trigger] init[k] == root()
            ||| init[k].len() > 0 && !init[k].contains('/')
        } by {
            assert(init[k] == comps[k]);
        }
        lemma_resolved_normal(init);
        let before = resolved(init);
        let last = comps.last();
        assert(comps[comps.len() - 1] == last);
        if last != dot_dot() && last != dot() {
            if comps.len() - 1 == 0 && last == root() {
                assert(before.len() == 0);
            } else {
                assert(is_name(last));
            }
            assert forall|k: int| 0 <= k < resolved(comps).len() implies {
                ||| k == 0 && #[trigger] resolved(comps)[k] == root()
                ||| is_name(resolved(comps)[k])
            } by {
                if k < before.len() {
                    assert(resolved(comps)[k] == before[k]);
                }
            }
        }
    }
}

/// A path in normal form has the components that it was made of.
pub proof fn lemma_path_text_components(comps: Seq<Seq<char>>)
    requires
        is_normal(comps),
    ensures
        components(path_text(comps)) == comps,
        comps.len() > 0 ==> path_text(comps).len() > 0,
        comps.len() > 0 && comps.last() != root() ==> path_text(comps).last() != '/',
    decreases comps.len(),
{
    let text = path_text(comps);
    let class = CharClass::Is('/');
    if comps.len() == 0 {
        assert(segments(text) =~= seq![Seq::<char>::empty()]);
        assert(kept(segments(text).drop_last()) =~= Seq::<Seq<char>>::empty());
        assert(components(text) =~= comps);
    } else {
        let init = comps.drop_last();
        let last = comps.last();
        assert(comps[comps.len() - 1] == last);
        assert forall|k: int| 0 <= k < init.len() implies {
            ||| k == 0 && #[trigger] init[k] == root()
            ||| is_name(init[k])
        } by {
            assert(init[k] == comps[k]);
        }
        lemma_path_text_components(init);
        let before = path_text(init);
        if last == root() {
            assert(root().contains('/')) by {
                assert(root()[0] == '/');
            }
            assert(comps.len() == 1);
            assert(before.len() == 0);
            assert(text == root());
            let e = Seq::<char>::empty();
            text::lemma_split_around(e, '/', e, class);
            assert(e.push('/') + e =~= root());
            assert(segments(text) =~= seq![e, e]);
            assert(kept(seq![e, e].drop_last().drop_last()) =~= Seq::<Seq<char>>::empty());
            assert(kept(seq![e, e].drop_last()) =~= Seq::<Seq<char>>::empty());
            assert(kept(segments(text)) =~= Seq::<Seq<char>>::empty());
            assert(components(text) =~= comps);
        } else {
            assert(is_name(last));
            assert(last[0] != '/' && last.last() != '/') by {
                assert(last.contains(last[0]));
                assert(last.contains(last.last()));
            }
            assert forall|i: int| 0 <= i < last.len() implies !class.has(#[trigger] last[i]) by {
                assert(last.contains(last[i]));
            }
            text::lemma_split_one(last, class);
            if init.len() == 0 {
                assert(text == last);
                assert(segments(text) =~= seq![last]);
                assert(kept(seq![last].drop_last()) =~= Seq::<Seq<char>>::empty());
                assert(components(text) =~= comps);
            } else {
                if before.last() == '/' {
                    assert(init.last() == root());
                    assert(init.len() == 1) by {
                        assert(init[init.len() - 1] == root());
                        if init.len() > 1 {
                            assert(is_name(init[init.len() - 1]));
                            assert(root()[0] == '/');
                            assert(root().contains('/'));
                        }
                    }
                    assert(path_text(init.drop_last()) =~= Seq::<char>::empty());
                    assert(before == root());
                    let e = Seq::<char>::empty();
                    assert(text =~= e.push('/') + last);
                    text::lemma_split_around(e, '/', last, class);
                    assert(segments(text) =~= seq![e, last]);
                    let segs = seq![e, last];
                    assert(kept(segs.drop_last().drop_last()) =~= Seq::<Seq<char>>::empty());
                    assert(kept(segs.drop_last()) =~= Seq::<Seq<char>>::empty());
                    assert(kept(segs) =~= seq![last]);
                    assert(components(text) =~= comps);
                } else {
                    assert(text =~= before.push('/') + last);
                    text::lemma_split_around(before, '/', last, class);
                    text::lemma_split_some(before, class);
                    assert(segments(text) =~= segments(before).push(last));
                    assert(segments(text).drop_last() =~= segments(before));
                    assert(kept(segments(text)) =~= kept(segments(before)).push(last));
                    assert(text[0] == before[0]);
                    assert(components(text) =~= init.push(last));
                    assert(init.push(last) =~= comps);
                }
            }
        }
    }
}

/// The normal form of a path has the resolved components, and they are names.
pub proof fn lemma_normalized(path: Seq<char>)
    ensures
        components(normalized(path)) == resolved(components(path)),
        is_normal(components(normalized(path))),
{
    lemma_components_shape(path);
    lemma_resolved_normal(components(path));
    lemma_path_text_components(resolved(components(path)));
}

/// A name below a path is its last segment.
pub proof fn lemma_segments_below(base: Seq<char>, name: Seq<char>)
    requires
        base.len() > 0,
        base.last() != '/',
        is_name(name),
    ensures
        segments(joined_path(base, name)) == segments(base).push(name),
        joined_path(base, name).last() != '/',
        joined_path(base, name) == base + seq!['/'] + name,
{
    let class = CharClass::Is('/');
    assert forall|i: int| 0 <= i < name.len() implies !class.has(#[trigger] name[i]) by {
        assert(name.contains(name[i]));
    }
    assert(!class.has(name[0]));
    assert(!class.has(name[name.len() - 1]));
    text::lemma_split_one(name, class);
    text::lemma_split_around(base, '/', name, class);
    assert(base + seq!['/'] + name =~= base.push('/') + name);
    assert(segments(base) + seq![name] =~= segments(base).push(name));
}

/// The parent of a name below a directory is the directory.
pub proof fn lemma_parent_below(dir: Seq<char>, name: Seq<char>)
    requires
        dir.len() > 0,
        dir.last() != '/',
        is_name(segments(dir).last()),
        is_name(name),
    ensures
        parent(joined_path(dir, name)) == Some(dir),
{
    lemma_segments_below(dir, name);
    text::lemma_split_some(dir, CharClass::Is('/'));
    let segs = segments(joined_path(dir, name));
    assert(drop_skipped(segs) == segs);
    assert(segs.drop_last() =~= segments(dir));
    assert(drop_skipped(segments(dir)) == segments(dir));
    text::lemma_join_split(dir, '/');
}

// ── Code ──────────────────────────────────────────────────────────────────

/// Whether the path begins at the root directory.
pub fn is_absolute(path: &str) -> (r: bool)
    ensures
        r == is_rooted(path@),
{
    let v = text::chars_of(path);
    v.len() > 0 && v[0] == '/'
}

/// The second path as seen from the first.
pub fn join_path(base: &str, path: &str) -> (r: String)
    ensures
        r@ == joined_path(base@, path@),
{
    if is_absolute(path) || base.is_empty() {
        return path.to_owned();
    }
    proof {
        reveal_strlit("/");
        assert("/"@ =~= seq!['/']);
        assert(base@.subrange(base@.len() - 1, base@.len() as int) =~= seq![base@.last()]);
        if text::ends(base@, "/"@) {
            assert(base@.last() == seq!['/'][0]);
        }
    }
    if text::ends_with(base, "/") {
        text::cat(base, path)
    } else {
        text::cat3(base, "/", path)
    }
}

/// Whether the segment is a component, where `first` says that it begins the path.
fn counts(seg: &str, first: bool) -> (r: bool)
    ensures
        r == (seg@.len() > 0 && (seg@ != dot() || first)),
{
    proof {
        reveal_strlit(".");
        assert("."@ =~= dot());
    }
    !seg.is_empty() && (first || !text::same(seg, "."))
}

/// The components of a path.
pub fn components_of(path: &str) -> (r: Vec<String>)
    ensures
        text::views(r@) == components(path@),
{
    let segs = text::split(path, CharClass::Is('/'));
    let mut out: Vec<String> = Vec::new();
    if is_absolute(path) {
        proof {
            reveal_strlit("/");
            assert("/"@ =~= root());
        }
        out.push("/".to_owned());
    }
    let ghost start = text::views(out@);
    let ghost all = segments(path@);
    let mut i: usize = 0;
    proof {
        assert(all.take(0) =~= Seq::<Seq<char>>::empty());
        assert(start + kept(all.take(0)) =~= start);
        assert(is_rooted(path@) ==> start =~= seq![root()]);
        assert(!is_rooted(path@) ==> start =~= Seq::<Seq<char>>::empty());
    }
    while i < segs.len()
        invariant
            text::views(segs@) == all,
            i <= segs.len(),
            text::views(out@) == start + kept(all.take(i as int)),
        decreases segs.len() - i,
    {
        let ghost before = text::views(out@);
        proof {
            assert(all.take(i + 1).drop_last() =~= all.take(i as int));
            assert(all.take(i + 1).last() == segs@[i as int]@);
        }
        if counts(segs[i].as_str(), i == 0) {
            out.push(segs[i].clone());
            proof {
                assert(text::views(out@) =~= before.push(segs@[i as int]@));
                assert(text::views(out@) =~= start + kept(all.take(i + 1)));
            }
        }
        i += 1;
    }
    proof {
        assert(all.take(i as int) =~= all);
        assert(Seq::<Seq<char>>::empty() + kept(all) =~= kept(all));
    }
    out
}

/// The components after `.` and `..` are worked out.
pub fn resolve(comps: &Vec<String>) -> (r: Vec<String>)
    ensures
        text::views(r@) == resolved(text::views(comps@)),
{
    let mut out: Vec<String> = Vec::new();
    let mut i: usize = 0;
    let ghost all = text::views(comps@);
    proof {
        reveal_strlit(".");
        reveal_strlit("..");
        assert("."@ =~= dot());
        assert(".."@ =~= dot_dot());
        assert(all.take(0) =~= Seq::<Seq<char>>::empty());
        assert(text::views(out@) =~= resolved(all.take(0)));
    }
    while i < comps.len()
        invariant
            all == text::views(comps@),
            "."@ == dot(),
            ".."@ == dot_dot(),
            i <= comps.len(),
            text::views(out@) == resolved(all.take(i as int)),
        decreases comps.len() - i,
    {
        let ghost before = text::views(out@);
        proof {
            assert(all.take(i + 1).drop_last() =~= all.take(i as int));
            assert(all.take(i + 1).last() == comps@[i as int]@);
        }
        if text::same(comps[i].as_str(), "..") {
            out.pop();
            proof {
                if before.len() > 0 {
                    assert(text::views(out@) =~= before.drop_last());
                } else {
                    assert(text::views(out@) =~= before);
                }
            }
        } else if !text::same(comps[i].as_str(), ".") {
            out.push(comps[i].clone());
            proof {
                assert(text::views(out@) =~= before.push(comps@[i as int]@));
            }
        }
        i += 1;
    }
    proof {
        assert(all.take(i as int) =~= all);
    }
    out
}

/// The path with these components.
pub fn path_of(comps: &Vec<String>) -> (r: String)
    ensures
        r@ == path_text(text::views(comps@)),
{
    let mut out = String::new();
    let mut i: usize = 0;
    let ghost all = text::views(comps@);
    while i < comps.len()
        invariant
            all == text::views(comps@),
            i <= comps.len(),
            out@ == path_text(all.take(i as int)),
        decreases comps.len() - i,
    {
        proof {
            assert(all.take(i + 1).drop_last() =~= all.take(i as int));
            assert(all.take(i + 1).last() == comps@[i as int]@);
        }
        out = join_path(out.as_str(), comps[i].as_str());
        i += 1;
    }
    proof {
        assert(all.take(i as int) =~= all);
    }
    out
}

/// Whether the first list begins with the second.
pub fn list_begins_with(comps: &Vec<String>, prefix: &Vec<String>) -> (r: bool)
    ensures
        r == begins_with(text::views(comps@), text::views(prefix@)),
{
    if prefix.len() > comps.len() {
        return false;
    }
    let mut i: usize = 0;
    while i < prefix.len()
        invariant
            i <= prefix.len() <= comps.len(),
            forall|j: int| 0 <= j < i ==> text::views(comps@)[j] == #[trigger] text::views(prefix@)[j],
        decreases prefix.len() - i,
    {
        if !text::same(comps[i].as_str(), prefix[i].as_str()) {
            proof {
                assert(text::views(comps@).take(prefix@.len() as int)[i as int]
                    != text::views(prefix@)[i as int]);
            }
            return false;
        }
        i += 1;
    }
    proof {
        assert(text::views(comps@).take(prefix@.len() as int) =~= text::views(prefix@));
    }
    true
}

/// The segments without those at the end that are not components.
fn drop_skipped_of(segs: &Vec<String>) -> (r: Vec<String>)
    ensures
        text::views(r@) == drop_skipped(text::views(segs@)),
{
    let mut out = text::copy_strings(segs);
    loop
        invariant
            drop_skipped(text::views(out@)) == drop_skipped(text::views(segs@)),
        ensures
            text::views(out@) == drop_skipped(text::views(segs@)),
        decreases out.len(),
    {
        let n = out.len();
        if n == 0 {
            break;
        }
        proof {
            assert(text::views(out@).last() == out@.last()@);
        }
        if counts(out[n - 1].as_str(), n == 1) {
            break;
        }
        let ghost before = text::views(out@);
        out.pop();
        proof {
            assert(text::views(out@) =~= before.drop_last());
        }
    }
    out
}

/// The path without its last component.
pub fn parent_of(path: &str) -> (r: Option<String>)
    ensures
        text::opt_view(r) == parent(path@),
{
    let mut segs = drop_skipped_of(&text::split(path, CharClass::Is('/')));
    if segs.len() == 0 {
        return None;
    }
    let ghost before = text::views(segs@);
    segs.pop();
    proof {
        assert(text::views(segs@) =~= before.drop_last());
        reveal_strlit("/");
        assert("/"@ =~= root());
    }
    let above = drop_skipped_of(&segs);
    if above.len() > 0 {
        Some(text::join(&above, "/"))
    } else if is_absolute(path) {
        Some("/".to_owned())
    } else {
        Some(String::new())
    }
}

/// The last component, where it is a name.
pub fn file_name_of(path: &str) -> (r: Option<String>)
    ensures
        text::opt_view(r) == file_name(path@),
{
    let segs = drop_skipped_of(&text::split(path, CharClass::Is('/')));
    let n = segs.len();
    if n == 0 {
        return None;
    }
    proof {
        assert(text::views(segs@).last() == segs@.last()@);
        reveal_strlit(".");
        reveal_strlit("..");
        assert("."@ =~= dot());
        assert(".."@ =~= dot_dot());
    }
    let last = &segs[n - 1];
    if text::same(last.as_str(), ".") || text::same(last.as_str(), "..") {
        None
    } else {
        Some(last.clone())
    }
}

// ── Laws ──────────────────────────────────────────────────────────────────

/// The segments that are components behind another segment: those that are neither empty nor
/// `.`.
spec fn counted(segs: Seq<Seq<char>>) -> Seq<Seq<char>>
    decreases segs.len(),
{
    if segs.len() == 0 {
        Seq::empty()
    } else if segs.last().len() > 0 && segs.last() != dot() {
        counted(segs.drop_last()).push(segs.last())
    } else {
        counted(segs.drop_last())
    }
}

proof fn lemma_kept_behind(a: Seq<Seq<char>>, b: Seq<Seq<char>>)
    requires
        a.len() > 0,
    ensures
        kept(a + b) == kept(a) + counted(b),
    decreases b.len(),
{
    if b.len() == 0 {
        assert(a + b =~= a);
        assert(kept(a) + counted(b) =~= kept(a));
    } else {
        lemma_kept_behind(a, b.drop_last());
        assert((a + b).drop_last() =~= a + b.drop_last());
        assert((a + b).last() == b.last());
        assert(kept(a + b) =~= kept(a) + counted(b));
    }
}

proof fn lemma_counted_concat(a: Seq<Seq<char>>, b: Seq<Seq<char>>)
    ensures
        counted(a + b) == counted(a) + counted(b),
    decreases b.len(),
{
    if b.len() == 0 {
        assert(a + b =~= a);
        assert(counted(a) + counted(b) =~= counted(a));
    } else {
        lemma_counted_concat(a, b.drop_last());
        assert((a + b).drop_last() =~= a + b.drop_last());
        assert((a + b).last() == b.last());
        assert(counted(a + b) =~= counted(a) + counted(b));
    }
}

proof fn lemma_counted_one(seg: Seq<char>)
    ensures
        counted(seq![seg]) == if seg.len() > 0 && seg != dot() {
            seq![seg]
        } else {
            Seq::empty()
        },
{
    assert(seq![seg].drop_last() =~= Seq::<Seq<char>>::empty());
    assert(seq![seg].last() == seg);
    assert(counted(seq![seg].drop_last()) =~= Seq::<Seq<char>>::empty());
    assert(Seq::<Seq<char>>::empty().push(seg) =~= seq![seg]);
}

proof fn lemma_resolved_behind(a: Seq<Seq<char>>, b: Seq<Seq<char>>, rest: Seq<Seq<char>>)
    requires
        resolved(a) == resolved(b),
    ensures
        resolved(a + rest) == resolved(b + rest),
    decreases rest.len(),
{
    if rest.len() == 0 {
        assert(a + rest =~= a);
        assert(b + rest =~= b);
    } else {
        lemma_resolved_behind(a, b, rest.drop_last());
        assert((a + rest).drop_last() =~= a + rest.drop_last());
        assert((b + rest).drop_last() =~= b + rest.drop_last());
        assert((a + rest).last() == rest.last());
        assert((b + rest).last() == rest.last());
    }
}

proof fn lemma_segment_between(a: Seq<char>, seg: Seq<char>, b: Seq<char>)
    requires
        !seg.contains('/'),
    ensures
        segments(a + seq!['/'] + seg + seq!['/'] + b) == segments(a) + seq![seg] + segments(b),
        segments(a + seq!['/'] + b) == segments(a) + segments(b),
        segments(a + seq!['/'] + seg) == segments(a).push(seg),
        segments(a).len() > 0,
{
    let class = CharClass::Is('/');
    assert forall|i: int| 0 <= i < seg.len() implies !class.has(#[trigger] seg[i]) by {
        assert(seg.contains(seg[i]));
    }
    text::lemma_split_one(seg, class);
    text::lemma_split_around(a, '/', seg, class);
    text::lemma_split_around(a, '/', b, class);
    text::lemma_split_around(a.push('/') + seg, '/', b, class);
    text::lemma_split_some(a, class);
    assert(a.push('/') + seg =~= a + seq!['/'] + seg);
    assert(a.push('/') + b =~= a + seq!['/'] + b);
    assert((a.push('/') + seg).push('/') + b =~= a + seq!['/'] + seg + seq!['/'] + b);
    assert(segments(a) + seq![seg] =~= segments(a).push(seg));
}

proof fn lemma_components_behind(a: Seq<char>, path: Seq<char>, rest: Seq<Seq<char>>)
    requires
        a.len() > 0 ==> path.len() > 0 && path[0] == a[0],
        a.len() == 0 ==> is_rooted(path),
        segments(path) == segments(a) + rest,
        segments(a).len() > 0,
    ensures
        components(path) == (if a.len() == 0 {
            seq![root()]
        } else {
            components(a)
        }) + counted(rest),
{
    lemma_kept_behind(segments(a), rest);
    if a.len() == 0 {
        text::lemma_split_one(a, CharClass::Is('/'));
        assert(segments(a) =~= seq![Seq::<char>::empty()]);
        assert(segments(a).drop_last() =~= Seq::<Seq<char>>::empty());
        assert(kept(segments(a).drop_last()) =~= Seq::<Seq<char>>::empty());
        assert(kept(segments(a)) =~= Seq::<Seq<char>>::empty());
    }
    assert(components(path) =~= (if a.len() == 0 {
        seq![root()]
    } else {
        components(a)
    }) + counted(rest));
}

/// A segment `.` and a slash too many change nothing in the normal form of a path.
pub proof fn law_dots_and_slashes_vanish(a: Seq<char>, b: Seq<char>)
    ensures
        normalized(a + seq!['/', '.', '/'] + b) == normalized(a + seq!['/'] + b),
        normalized(a + seq!['/', '/'] + b) == normalized(a + seq!['/'] + b),
{
    let plain = a + seq!['/'] + b;
    let dotted = a + seq!['/'] + dot() + seq!['/'] + b;
    let doubled = a + seq!['/'] + Seq::<char>::empty() + seq!['/'] + b;
    assert(dotted =~= a + seq!['/', '.', '/'] + b);
    assert(doubled =~= a + seq!['/', '/'] + b);
    lemma_segment_between(a, dot(), b);
    lemma_segment_between(a, Seq::empty(), b);
    let rest = segments(b);
    lemma_counted_one(dot());
    lemma_counted_one(Seq::<char>::empty());
    lemma_counted_concat(seq![dot()], rest);
    lemma_counted_concat(seq![Seq::<char>::empty()], rest);
    assert(counted(seq![dot()]) + counted(rest) =~= counted(rest));
    assert(segments(a) + seq![dot()] + rest =~= segments(a) + (seq![dot()] + rest));
    assert(segments(a) + seq![Seq::<char>::empty()] + rest =~= segments(a) + (seq![
        Seq::<char>::empty(),
    ] + rest));
    lemma_components_behind(a, plain, rest);
    lemma_components_behind(a, dotted, seq![dot()] + rest);
    lemma_components_behind(a, doubled, seq![Seq::<char>::empty()] + rest);
}

/// A segment `..` takes back the name before it.
pub proof fn law_dot_dot_takes_back(a: Seq<char>, name: Seq<char>, b: Seq<char>)
    requires
        is_name(name),
    ensures
        normalized(a + seq!['/'] + name + seq!['/', '.', '.', '/'] + b) == normalized(
            a + seq!['/'] + b,
        ),
{
    let plain = a + seq!['/'] + b;
    let there = a + seq!['/'] + name;
    let back = there + seq!['/'] + dot_dot() + seq!['/'] + b;
    assert(back =~= a + seq!['/'] + name + seq!['/', '.', '.', '/'] + b);
    lemma_segment_between(a, name, b);
    lemma_segment_between(there, dot_dot(), b);
    let rest = segments(b);
    let two = seq![name] + seq![dot_dot()];
    lemma_components_behind(a, plain, rest);
    assert(segments(back) =~= segments(a) + (two + rest));
    assert(is_rooted(there) || a.len() > 0);
    lemma_components_behind(a, back, two + rest);
    lemma_counted_concat(two, rest);
    lemma_counted_concat(seq![name], seq![dot_dot()]);
    lemma_counted_one(name);
    lemma_counted_one(dot_dot());
    assert(dot_dot() != dot());
    assert(dot_dot().len() == 2 && dot().len() == 1);
    let front = if a.len() == 0 {
        seq![root()]
    } else {
        components(a)
    };
    let up = front + two;
    assert(up.last() == dot_dot());
    assert(up.drop_last() =~= front.push(name));
    assert(up.drop_last().drop_last() =~= front);
    assert(up.drop_last().last() == name);
    assert(resolved(up.drop_last()) == resolved(front).push(name));
    assert(resolved(front).push(name).drop_last() =~= resolved(front));
    assert(resolved(up) == resolved(front));
    lemma_resolved_behind(up, front, counted(rest));
    assert(front + counted(two + rest) =~= up + counted(rest));
}

/// To go below a path by a name adds that name to its components; a rooted path is seen from
/// nowhere else.
pub proof fn law_name_below(base: Seq<char>, name: Seq<char>, rooted: Seq<char>)
    requires
        base.len() > 0,
        is_name(name),
        is_rooted(rooted),
    ensures
        components(base + seq!['/'] + name) == components(base).push(name),
        base.last() != '/' ==> joined_path(base, name) == base + seq!['/'] + name,
        base.last() == '/' ==> joined_path(base, name) == base + name,
        joined_path(base, rooted) == rooted,
        joined_path(Seq::empty(), name) == name,
{
    lemma_segment_between(base, name, Seq::empty());
    lemma_counted_one(name);
    let path = base + seq!['/'] + name;
    assert(segments(path) =~= segments(base) + seq![name]);
    lemma_components_behind(base, path, seq![name]);
    assert(components(base) + seq![name] =~= components(base).push(name));
    assert(name.contains(name[0]));
}

/// The file name of a path is what follows its last slash, and a slash at the end does not
/// change it. A path that ends in `..` has none.
pub proof fn law_file_name(dir: Seq<char>, name: Seq<char>)
    requires
        is_name(name),
    ensures
        file_name(dir + seq!['/'] + name) == Some(name),
        file_name(dir + seq!['/'] + name + seq!['/']) == Some(name),
        file_name(name) == Some(name),
        file_name(dir + seq!['/', '.', '.']).is_none(),
        file_name(seq!['/']).is_none(),
{
    let path = dir + seq!['/'] + name;
    let class = CharClass::Is('/');
    let none = Seq::<char>::empty();
    lemma_segment_between(dir, name, none);
    lemma_segment_between(dir, dot_dot(), none);
    assert(dir + seq!['/'] + dot_dot() =~= dir + seq!['/', '.', '.']);
    assert(dot_dot().len() == 2 && dot().len() == 1);
    let segs = segments(path);
    assert(segs.last() == name);
    text::lemma_split_one(none, class);
    let slashed = path + seq!['/'] + none;
    assert(slashed =~= path + seq!['/']);
    assert(segments(slashed) =~= segs.push(none));
    assert(segments(slashed).drop_last() =~= segs);
    assert(!last_counts(segments(slashed)));
    assert(drop_skipped(segs) == segs);
    assert(drop_skipped(segments(slashed)) == drop_skipped(segs));
    assert forall|i: int| 0 <= i < name.len() implies !class.has(#[trigger] name[i]) by {
        assert(name.contains(name[i]));
    }
    text::lemma_split_one(name, class);
    assert(seq![name].last() == name);
    lemma_segment_between(none, none, none);
    assert(none + seq!['/'] + none =~= seq!['/']);
    let slash = segments(seq!['/']);
    assert(slash =~= seq![none, none]);
    assert(slash.drop_last() =~= seq![none]);
    assert(seq![none].drop_last() =~= Seq::<Seq<char>>::empty());
    assert(drop_skipped(Seq::<Seq<char>>::empty()).len() == 0);
    assert(seq![none].last() == none);
    assert(drop_skipped(seq![none]) == drop_skipped(seq![none].drop_last()));
    assert(slash.last() == none);
    assert(drop_skipped(slash) == drop_skipped(slash.drop_last()));
}

/// What stands above a name below a directory is the directory, and a slash behind the name does
/// not change that. Above a name alone stands the empty path, and above the root nothing.
pub proof fn law_parent(dir: Seq<char>, name: Seq<char>)
    requires
        dir.len() > 0,
        dir.last() != '/',
        is_name(segments(dir).last()),
        is_name(name),
    ensures
        parent(dir + seq!['/'] + name) == Some(dir),
        parent(dir + seq!['/'] + name + seq!['/']) == Some(dir),
        parent(seq!['/'] + name) == Some(seq!['/']),
        parent(name) == Some(Seq::<char>::empty()),
        parent(seq!['/']).is_none(),
        parent(Seq::empty()).is_none(),
{
    let path = dir + seq!['/'] + name;
    let class = CharClass::Is('/');
    let none = Seq::<char>::empty();
    lemma_segments_below(dir, name);
    lemma_parent_below(dir, name);
    lemma_segment_between(path, none, none);
    text::lemma_split_one(none, class);
    let slashed = path + seq!['/'] + none;
    assert(slashed =~= path + seq!['/']);
    assert(segments(slashed) =~= segments(path).push(none));
    assert(segments(slashed).drop_last() =~= segments(path));
    assert(!last_counts(segments(slashed)));
    assert(drop_skipped(segments(slashed)) == drop_skipped(segments(path)));
    assert forall|i: int| 0 <= i < name.len() implies !class.has(#[trigger] name[i]) by {
        assert(name.contains(name[i]));
    }
    text::lemma_split_one(name, class);
    let empty = Seq::<Seq<char>>::empty();
    assert(drop_skipped(empty).len() == 0);
    assert(seq![name].last() == name);
    assert(seq![name].drop_last() =~= empty);
    assert(name.contains(name[0]));
    assert(seq![none].last() == none);
    assert(seq![none].drop_last() =~= empty);
    assert(drop_skipped(seq![none]).len() == 0);
    lemma_segment_between(none, name, none);
    assert(none + seq!['/'] + name =~= seq!['/'] + name);
    let one = segments(seq!['/'] + name);
    assert(one =~= seq![none, name]);
    assert(one.drop_last() =~= seq![none]);
    assert(none + seq!['/'] + none =~= seq!['/']);
    let slash = segments(seq!['/']);
    assert(slash =~= seq![none, none]);
    assert(slash.drop_last() =~= seq![none]);
    assert(slash.last() == none);
    assert(drop_skipped(slash) == drop_skipped(slash.drop_last()));
}

/// To go up from a path and down by a name puts that name in the place of the last component.
pub proof fn law_up_and_down(base: Seq<char>, name: Seq<char>)
    requires
        base.len() > 0,
        is_name(name),
        resolved(components(base)).len() > 0,
    ensures
        resolved(components(base + seq!['/', '.', '.', '/'] + name)) == resolved(
            components(base),
        ).drop_last().push(name),
{
    let path = base + seq!['/'] + dot_dot() + seq!['/'] + name;
    assert(path =~= base + seq!['/', '.', '.', '/'] + name);
    assert(dot_dot().len() == 2 && dot().len() == 1);
    lemma_segment_between(base, dot_dot(), name);
    let class = CharClass::Is('/');
    assert forall|i: int| 0 <= i < name.len() implies !class.has(#[trigger] name[i]) by {
        assert(name.contains(name[i]));
    }
    text::lemma_split_one(name, class);
    let two = seq![dot_dot()] + seq![name];
    assert(segments(path) =~= segments(base) + two);
    lemma_components_behind(base, path, two);
    lemma_counted_concat(seq![dot_dot()], seq![name]);
    lemma_counted_one(name);
    lemma_counted_one(dot_dot());
    let comps = components(base) + two;
    assert(components(path) == comps);
    assert(comps.last() == name);
    assert(comps.drop_last() =~= components(base).push(dot_dot()));
    assert(comps.drop_last().last() == dot_dot());
    assert(comps.drop_last().drop_last() =~= components(base));
    assert(resolved(comps.drop_last()) == resolved(components(base)).drop_last());
}

/// From nowhere and from the root alone `..` leads nowhere: what follows it stands first then.
pub proof fn law_up_from_nothing(comps: Seq<Seq<char>>)
    ensures
        resolved(seq![dot_dot()] + comps) == resolved(comps),
        resolved(seq![root(), dot_dot()] + comps) == resolved(comps),
{
    let none = Seq::<Seq<char>>::empty();
    let one = seq![dot_dot()];
    let two = seq![root(), dot_dot()];
    assert(root()[0] == '/' && dot_dot()[0] == '.' && dot()[0] == '.');
    assert(dot_dot().len() == 2 && dot().len() == 1);
    assert(resolved(none) =~= none);
    assert(one.drop_last() =~= none);
    assert(one.last() == dot_dot());
    assert(resolved(one) =~= none);
    assert(two.drop_last() =~= seq![root()]);
    assert(two.last() == dot_dot());
    assert(seq![root()].drop_last() =~= none);
    assert(seq![root()].last() == root());
    assert(resolved(seq![root()]) =~= seq![root()]);
    assert(seq![root()].drop_last() =~= none);
    assert(resolved(two) =~= none);
    lemma_resolved_behind(one, none, comps);
    lemma_resolved_behind(two, none, comps);
    assert(none + comps =~= comps);
}

} // verus!
