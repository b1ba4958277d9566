//! Slash-separated paths as text, read as a unix system reads them.
//!
//! A path is compared by its components: repeated and trailing slashes say
//! nothing, and neither does a `.` component but for a leading one.

use crate::text::{
    find_last, has_prefix, last_position, lemma_find_last, lemma_split, lemma_split_push,
    lemma_split_single, same, slices, spells, split, split_at_each, to_chars, to_text,
};
use vstd::prelude::*;
use vstd::slice::slice_subrange;

verus! {

/// The parts that name something: neither empty nor `.`.
pub open spec fn named(parts: Seq<Seq<char>>) -> Seq<Seq<char>>
    decreases parts.len(),
{
    if parts.len() == 0 {
        Seq::empty()
    } else if parts.last().len() == 0 || parts.last() == "."@ {
        named(parts.drop_last())
    } else {
        named(parts.drop_last()).push(parts.last())
    }
}

pub open spec fn is_absolute(path: Seq<char>) -> bool {
    path.len() > 0 && path[0] == '/'
}

/// The components of a path, below the root where it is absolute.
pub open spec fn components(path: Seq<char>) -> Seq<Seq<char>> {
    let parts = split(path, '/');
    if parts[0] == "."@ {
        seq!["."@] + named(parts)
    } else {
        named(parts)
    }
}

/// Whether two texts spell the same path.
pub open spec fn same_path(left: Seq<char>, right: Seq<char>) -> bool {
    is_absolute(left) == is_absolute(right) && components(left) == components(right)
}

/// What a list of owned components holds.
pub open spec fn views(parts: Seq<Vec<char>>) -> Seq<Seq<char>> {
    Seq::new(parts.len(), |i: int| parts[i]@)
}

fn owned(chars: &[char]) -> (copy: Vec<char>)
    ensures
        copy@ == chars@,
{
    let mut copy: Vec<char> = Vec::new();
    copy.extend_from_slice(chars);
    assert(copy@ =~= chars@);
    copy
}

pub fn absolute(path: &[char]) -> (yes: bool)
    ensures
        yes == is_absolute(path@),
{
    path.len() > 0 && path[0] == '/'
}

fn components_of(path: &[char]) -> (parts: Vec<Vec<char>>)
    ensures
        views(parts@) == components(path@),
{
    let all = split_at_each(path, '/');
    let ghost every = slices(all@);
    let mut parts: Vec<Vec<char>> = Vec::new();
    let ghost mut leading: Seq<Seq<char>> = Seq::empty();
    assert(every[0] == all@[0]@);
    if spells(all[0], ".") {
        parts.push(owned(all[0]));
        proof {
            leading = seq!["."@];
        }
    }
    assert(views(parts@) =~= leading);
    let mut i: usize = 0;
    assert(every.take(0) =~= Seq::<Seq<char>>::empty());
    assert(leading + named(every.take(0)) =~= leading);
    while i < all.len()
        invariant
            i <= all@.len(),
            every == slices(all@),
            views(parts@) == leading + named(every.take(i as int)),
        decreases all@.len() - i,
    {
        let ghost before = views(parts@);
        assert(every.take(i + 1).drop_last() =~= every.take(i as int));
        assert(every.take(i + 1).last() == all@[i as int]@);
        if all[i].len() > 0 && !spells(all[i], ".") {
            let part = owned(all[i]);
            parts.push(part);
            assert(views(parts@) =~= before.push(part@));
        }
        i += 1;
        assert(views(parts@) =~= leading + named(every.take(i as int)));
    }
    assert(every.take(i as int) =~= every);
    proof {
        assert(leading + named(every) =~= components(path@));
    }
    parts
}

/// Whether two texts spell the same path.
#[verifier::loop_isolation(false)]
pub fn paths_equal(left: &str, right: &str) -> (equal: bool)
    ensures
        equal == same_path(left@, right@),
{
    let left = to_chars(left);
    let right = to_chars(right);
    if absolute(&left) != absolute(&right) {
        return false;
    }
    let ours = components_of(&left);
    let theirs = components_of(&right);
    assert(views(ours@).len() == ours@.len());
    assert(views(theirs@).len() == theirs@.len());
    if ours.len() != theirs.len() {
        return false;
    }
    let mut i: usize = 0;
    while i < ours.len()
        invariant
            i <= ours@.len(),
            ours@.len() == theirs@.len(),
            views(ours@) == components(left@),
            views(theirs@) == components(right@),
            forall|j: int| 0 <= j < i ==> views(ours@)[j] == views(theirs@)[j],
        decreases ours@.len() - i,
    {
        if !same(&ours[i], &theirs[i]) {
            assert(views(ours@)[i as int] != views(theirs@)[i as int]);
            return false;
        }
        i += 1;
    }
    assert(views(ours@) =~= views(theirs@));
    true
}

/// The last component, where the path ends in a name.
pub open spec fn file_name(path: Seq<char>) -> Option<Seq<char>> {
    let parts = named(split(path, '/'));
    if parts.len() > 0 && parts.last() != ".."@ {
        Some(parts.last())
    } else {
        None
    }
}

proof fn lemma_components_end(path: Seq<char>)
    ensures
        named(split(path, '/')).len() > 0 ==> components(path).len() > 0 && components(path).last()
            == named(split(path, '/')).last(),
        named(split(path, '/')).len() == 0 && components(path).len() > 0 ==> components(path).last()
            == "."@,
{
}

proof fn lemma_named(parts: Seq<Seq<char>>)
    ensures
        forall|i: int|
            0 <= i < named(parts).len() ==> (#[trigger] named(parts)[i]).len() > 0 && named(
                parts,
            )[i] != "."@,
    decreases parts.len(),
{
    if parts.len() > 0 {
        let front = named(parts.drop_last());
        lemma_named(parts.drop_last());
        assert forall|i: int| 0 <= i < named(parts).len() implies (#[trigger] named(parts)[i]).len()
            > 0 && named(parts)[i] != "."@ by {
            if i < front.len() {
                assert(named(parts)[i] == front[i]);
            }
        }
    }
}

pub fn last_name(path: &[char]) -> (name: Option<Vec<char>>)
    ensures
        match name {
            Some(name) => file_name(path@) == Some(name@),
            None => file_name(path@) is None,
        },
{
    let mut parts = components_of(path);
    proof {
        lemma_components_end(path@);
        lemma_named(split(path@, '/'));
        assert(views(parts@).len() == parts@.len());
        if parts@.len() > 0 {
            assert(views(parts@).last() == parts@.last()@);
        }
    }
    match parts.pop() {
        None => None,
        Some(last) => if spells(&last, ".") || spells(&last, "..") {
            None
        } else {
            Some(last)
        },
    }
}

/// How much of a path its root takes, or a leading `.`, which is a component of
/// its own.
pub open spec fn head_len(path: Seq<char>) -> int {
    if is_absolute(path) || (path.len() > 0 && path[0] == '.' && (path.len() == 1 || path[1]
        == '/')) {
        1
    } else {
        0
    }
}

/// Where the last part of a path ends the text before it: at the slash in front
/// of that part, and at the head of the path where there is none behind that.
pub open spec fn cut_at(path: Seq<char>) -> int {
    let slash = find_last(path.skip(head_len(path)), '/');
    head_len(path) + if slash >= 0 {
        slash
    } else {
        0
    }
}

/// The last part of a path: what follows its last slash behind its head.
pub open spec fn last_part(path: Seq<char>) -> Seq<char> {
    path.skip(head_len(path) + find_last(path.skip(head_len(path)), '/') + 1)
}

/// A path without the parts at its end that name nothing.
pub open spec fn bare(path: Seq<char>) -> Seq<char>
    decreases path.len(),
{
    if head_len(path) <= cut_at(path) < path.len() && (last_part(path).len() == 0 || last_part(path)
        == "."@) {
        bare(path.take(cut_at(path)))
    } else {
        path
    }
}

/// The text of a path before its last component, as it is written, where it
/// has one; what names nothing goes with it.
pub open spec fn parent(path: Seq<char>) -> Option<Seq<char>> {
    let text = bare(path);
    if text.len() > head_len(text) {
        Some(bare(text.take(cut_at(text))))
    } else if text.len() == 0 || is_absolute(text) {
        None
    } else {
        Some(Seq::empty())
    }
}

proof fn lemma_named_alone(part: Seq<char>)
    ensures
        named(seq![part]) == if part.len() == 0 || part == "."@ {
            Seq::<Seq<char>>::empty()
        } else {
            seq![part]
        },
{
    reveal_with_fuel(named, 2);
    let parts = seq![part];
    assert(parts.last() == part);
    assert(parts.drop_last() =~= Seq::<Seq<char>>::empty());
    assert(Seq::<Seq<char>>::empty().push(part) =~= parts);
}

proof fn lemma_cut(path: Seq<char>)
    requires
        path.len() > head_len(path),
    ensures
        head_len(path) <= cut_at(path) < path.len(),
        head_len(path.take(cut_at(path))) == head_len(path),
        is_absolute(path.take(cut_at(path))) == is_absolute(path),
        components(path) == if last_part(path).len() == 0 || last_part(path) == "."@ {
            components(path.take(cut_at(path)))
        } else {
            components(path.take(cut_at(path))).push(last_part(path))
        },
{
    let head = head_len(path);
    let body = path.skip(head);
    let slash = find_last(body, '/');
    let cut = cut_at(path);
    let front = path.take(cut);
    let last = last_part(path);
    reveal_strlit(".");
    lemma_find_last(body, '/');
    assert(!last.contains('/')) by {
        if last.contains('/') {
            let k = choose|k: int| 0 <= k < last.len() && last[k] == '/';
            assert(body[slash + 1 + k] == '/');
        }
    }
    assert(front.len() == cut);
    if slash >= 0 {
        assert(body[slash] == path[cut]);
        assert(path =~= front + seq!['/'] + last);
        lemma_split_push(front, last, '/');
        lemma_split(front, '/');
        let parts = split(front, '/');
        assert(split(path, '/') == parts.push(last));
        assert(parts.push(last).drop_last() =~= parts);
        assert(split(path, '/')[0] == parts[0]);
        assert((seq!["."@] + named(parts)).push(last) =~= seq!["."@] + named(parts).push(last));
    } else if is_absolute(path) {
        let none = Seq::<char>::empty();
        assert(last =~= body);
        assert(path =~= none + seq!['/'] + last);
        assert(front =~= none + seq!['/'] + none);
        lemma_split_push(none, last, '/');
        lemma_split_push(none, none, '/');
        lemma_split_single(none, '/');
        assert(split(path, '/') == seq![none].push(last));
        assert(split(front, '/') == seq![none].push(none));
        assert(seq![none].push(last).drop_last() =~= seq![none]);
        assert(seq![none].push(none).drop_last() =~= seq![none]);
        lemma_named_alone(none);
        assert(none != "."@);
    } else if head == 1 {
        assert(body[0] == '/');
        assert(false);
    } else {
        let none = Seq::<char>::empty();
        assert(last =~= path);
        assert(front =~= none);
        lemma_split_single(path, '/');
        lemma_split_single(none, '/');
        lemma_named_alone(path);
        lemma_named_alone(none);
        assert(none != "."@);
        if path == "."@ {
            assert(path[0] == '.' && path.len() == 1);
        }
        assert(components(front) =~= Seq::<Seq<char>>::empty());
    }
}

proof fn lemma_bare(path: Seq<char>)
    ensures
        head_len(path) <= bare(path).len() <= path.len(),
        bare(path) == path.take(bare(path).len() as int),
        head_len(bare(path)) == head_len(path),
        is_absolute(bare(path)) == is_absolute(path),
        components(bare(path)) == components(path),
        bare(path).len() > head_len(path) ==> last_part(bare(path)).len() > 0 && last_part(
            bare(path),
        ) != "."@,
    decreases path.len(),
{
    if path.len() > head_len(path) {
        lemma_cut(path);
        if last_part(path).len() == 0 || last_part(path) == "."@ {
            let front = path.take(cut_at(path));
            lemma_bare(front);
            assert(front.take(bare(front).len() as int) =~= path.take(bare(front).len() as int));
        } else {
            assert(path.take(path.len() as int) =~= path);
        }
    } else {
        lemma_find_last(path.skip(head_len(path)), '/');
        assert(path.take(path.len() as int) =~= path);
    }
}

/// The parent of a path is the path without its last component, and as it was
/// written: it is a prefix of the text, and stands under the same root.
pub proof fn law_a_parent_is_the_path_before_its_last_component(path: Seq<char>)
    ensures
        parent(path) is Some <==> components(path).len() > 0,
        parent(path) matches Some(above) ==> {
            &&& has_prefix(path, above)
            &&& is_absolute(above) == is_absolute(path)
            &&& components(above) == components(path).drop_last()
        },
{
    let text = bare(path);
    let none = Seq::<char>::empty();
    reveal_strlit(".");
    lemma_bare(path);
    lemma_split_single(none, '/');
    lemma_named_alone(none);
    assert(none != "."@);
    assert(components(none) =~= Seq::<Seq<char>>::empty());
    if text.len() > head_len(text) {
        lemma_cut(text);
        let front = text.take(cut_at(text));
        lemma_bare(front);
        let above = bare(front);
        assert(path.take(above.len() as int) =~= above);
        assert(components(text).drop_last() =~= components(front));
    } else if text.len() == 0 {
        assert(text =~= none);
    } else if is_absolute(text) {
        assert(text =~= none + seq!['/'] + none);
        lemma_split_push(none, none, '/');
        assert(seq![none].push(none).drop_last() =~= seq![none]);
        assert(components(text) =~= Seq::<Seq<char>>::empty());
    } else {
        assert(text =~= "."@);
        assert(!text.contains('/'));
        lemma_split_single(text, '/');
        lemma_named_alone(text);
        assert(components(text) =~= seq!["."@]);
        assert(components(text).drop_last() =~= Seq::<Seq<char>>::empty());
        assert(path.take(0) =~= none);
    }
}

fn head_of(path: &[char]) -> (head: usize)
    ensures
        head == head_len(path@),
        head <= path@.len(),
{
    if path.len() > 0 && (path[0] == '/' || (path[0] == '.' && (path.len() == 1 || path[1]
        == '/'))) {
        1
    } else {
        0
    }
}

/// Where a path that goes on behind its head is cut, and whether its last part
/// names something.
fn cut_of(path: &[char]) -> (cut: (usize, bool))
    requires
        path@.len() > head_len(path@),
    ensures
        cut.0 == cut_at(path@),
        cut.0 < path@.len(),
        cut.1 == (last_part(path@).len() > 0 && last_part(path@) != "."@),
{
    let head: usize = head_of(path);
    let body = slice_subrange(path, head, path.len());
    assert(body@ =~= path@.skip(head as int));
    let (at, from): (usize, usize) = match last_position(body, '/') {
        Some(slash) => (head + slash, head + slash + 1),
        None => (head, head),
    };
    let last = slice_subrange(path, from, path.len());
    assert(last@ =~= last_part(path@));
    (at, last.len() > 0 && !spells(last, "."))
}

fn bare_of<'a>(path: &'a [char]) -> (text: &'a [char])
    ensures
        text@ == bare(path@),
{
    let mut text: &[char] = path;
    loop
        invariant
            bare(text@) == bare(path@),
        decreases text@.len(),
    {
        if text.len() <= head_of(text) {
            proof {
                lemma_find_last(text@.skip(head_len(text@)), '/');
            }
            return text;
        }
        let (at, named_last) = cut_of(text);
        if named_last {
            return text;
        }
        let front = slice_subrange(text, 0, at);
        proof {
            lemma_cut(text@);
            assert(front@ =~= text@.take(at as int));
        }
        text = front;
    }
}

pub fn parent_of(path: &str) -> (above: Option<String>)
    ensures
        match above {
            Some(above) => parent(path@) == Some(above@),
            None => parent(path@) is None,
        },
{
    let chars = to_chars(path);
    let text = bare_of(&chars);
    if text.len() > head_of(text) {
        let (at, _) = cut_of(text);
        let front = slice_subrange(text, 0, at);
        assert(front@ =~= text@.take(at as int));
        return Some(to_text(bare_of(front)));
    }
    if text.len() == 0 || text[0] == '/' {
        None
    } else {
        Some(String::new())
    }
}

/// A name inside a directory.
pub open spec fn child(dir: Seq<char>, name: Seq<char>) -> Seq<char> {
    if dir.len() == 0 {
        name
    } else if dir.last() == '/' {
        dir + name
    } else {
        dir + "/"@ + name
    }
}

/// The path of a relative name inside a directory.
pub fn child_of(dir: &str, name: &str) -> (path: String)
    ensures
        path@ == child(dir@, name@),
{
    let chars = to_chars(dir);
    let mut path = dir.to_owned();
    if chars.len() > 0 && chars[chars.len() - 1] != '/' {
        path.push_str("/");
    }
    path.push_str(name);
    assert(path@ =~= child(dir@, name@));
    path
}

/// The name of a path is what stands behind its last slash, whatever slashes
/// follow it; `..` is no name.
pub proof fn law_the_name_behind_the_last_slash(front: Seq<char>, name: Seq<char>)
    requires
        !name.contains('/'),
        name.len() > 0,
        name != "."@ && name != ".."@,
    ensures
        file_name(front + seq!['/'] + name) == Some(name),
        file_name(front + seq!['/'] + name + seq!['/']) == Some(name),
        file_name(name) == Some(name),
        file_name(front + seq!['/'] + ".."@) is None,
{
    reveal_strlit(".");
    reveal_strlit("..");
    let none = Seq::<char>::empty();
    let path = front + seq!['/'] + name;
    lemma_split_push(front, name, '/');
    lemma_split_push(path, none, '/');
    assert(path + seq!['/'] + none =~= path + seq!['/']);
    lemma_split_single(name, '/');
    lemma_named_alone(name);
    let parts = split(front, '/');
    assert(parts.push(name).drop_last() =~= parts);
    assert(parts.push(name).push(none).drop_last() =~= parts.push(name));
    assert(named(parts.push(name)).last() == name);
    assert(named(parts.push(name).push(none)) == named(parts.push(name)));
    let up = ".."@;
    assert(!up.contains('/'));
    lemma_split_push(front, up, '/');
    assert(parts.push(up).drop_last() =~= parts);
    assert(up != "."@) by {
        assert(up.len() == 2 && "."@.len() == 1);
    }
    assert(named(parts.push(up)).last() == up);
}

/// A name inside a directory stands behind it and one slash, which a directory
/// that ends with one already has.
pub proof fn law_a_child_is_behind_one_slash(dir: Seq<char>, name: Seq<char>)
    ensures
        dir.len() == 0 ==> child(dir, name) == name,
        dir.len() > 0 && dir.last() == '/' ==> child(dir, name) == dir + name,
        dir.len() > 0 && dir.last() != '/' ==> child(dir, name) == dir + seq!['/'] + name,
{
    reveal_strlit("/");
    assert("/"@ =~= seq!['/']);
}

/// Texts spell the same path where they differ only in repeated slashes, in
/// slashes at the end, and in `.` components behind the first.
pub proof fn law_what_spells_the_same_path(front: Seq<char>, name: Seq<char>)
    requires
        !name.contains('/'),
    ensures
        same_path(front + seq!['/'] + name, front + seq!['/'] + name + seq!['/']),
        same_path(
            front + seq!['/'] + name,
            front + seq!['/'] + name + seq!['/'] + "."@,
        ),
        same_path(front + seq!['/'] + seq!['/'] + name, front + seq!['/'] + name),
{
    reveal_strlit(".");
    let none = Seq::<char>::empty();
    let dot = "."@;
    let path = front + seq!['/'] + name;
    let parts = split(front, '/');
    lemma_split(front, '/');
    lemma_split_push(front, name, '/');
    lemma_split_push(path, none, '/');
    lemma_split_push(path, dot, '/');
    assert(!dot.contains('/'));
    assert(path + seq!['/'] + none =~= path + seq!['/']);
    let all = parts.push(name);
    assert(all.push(none).drop_last() =~= all);
    assert(all.push(dot).drop_last() =~= all);
    assert(all.push(none)[0] == all[0] && all.push(dot)[0] == all[0] && all[0] == parts[0]);
    assert((path + seq!['/'])[0] == path[0]);
    assert((path + seq!['/'] + dot)[0] == path[0]);
    let gap = front + seq!['/'];
    lemma_split_push(front, none, '/');
    assert(front + seq!['/'] + none =~= gap);
    lemma_split_push(gap, name, '/');
    assert(front + seq!['/'] + seq!['/'] + name =~= gap + seq!['/'] + name);
    assert(parts.push(none).push(name).drop_last() =~= parts.push(none));
    assert(parts.push(none).drop_last() =~= parts);
    assert(all.drop_last() =~= parts);
    assert(named(parts.push(none)) == named(parts));
    assert(named(parts.push(none).push(name)) == named(all));
    assert(parts.push(none).push(name)[0] == parts[0]);
    assert((front + seq!['/'] + seq!['/'] + name)[0] == path[0]);
}

/// Paths that differ in a name differ, and so do an absolute path and one that
/// is not.
pub proof fn law_what_tells_paths_apart(front: Seq<char>, left: Seq<char>, right: Seq<char>)
    requires
        !left.contains('/') && !right.contains('/'),
        left.len() > 0 && right.len() > 0,
        left != "."@ && right != "."@,
    ensures
        same_path(front + seq!['/'] + left, front + seq!['/'] + right) <==> left == right,
        !same_path(seq!['/'] + left, left),
{
    let parts = split(front, '/');
    lemma_split(front, '/');
    lemma_split_push(front, left, '/');
    lemma_split_push(front, right, '/');
    let one = front + seq!['/'] + left;
    let two = front + seq!['/'] + right;
    assert(one[0] == two[0]) by {
        if front.len() > 0 {
            assert(one[0] == front[0] && two[0] == front[0]);
        } else {
            assert(one[0] == '/' && two[0] == '/');
        }
    }
    assert(parts.push(left).drop_last() =~= parts);
    assert(parts.push(right).drop_last() =~= parts);
    assert(parts.push(left)[0] == parts[0] && parts.push(right)[0] == parts[0]);
    if components(one) == components(two) {
        assert(components(one).last() == left);
        assert(components(two).last() == right);
    }
    assert((seq!['/'] + left)[0] == '/');
    if left[0] == '/' {
        assert(left.contains('/'));
    }
}

/// The parent of a path that ends in a name is what stands before the name and
/// its slash, and paths are told to be equal where they spell the same path.
pub proof fn law_what_stands_above_a_name(
    front: Seq<char>,
    name: Seq<char>,
    path: &str,
    above: Option<String>,
)
    requires
        call_ensures(parent_of, (path,), above),
        path@ == front + seq!['/'] + name,
        front.len() > 0,
        !name.contains('/'),
        name.len() > 0,
        name != "."@,
    ensures
        above matches Some(dir) && same_path(dir@, front),
{
    law_a_parent_is_the_path_before_its_last_component(path@);
    let parts = split(front, '/');
    lemma_split(front, '/');
    lemma_split_push(front, name, '/');
    assert(parts.push(name).drop_last() =~= parts);
    assert(parts.push(name)[0] == parts[0]);
    assert(path@[0] == front[0]);
    assert(components(path@) =~= components(front).push(name));
    assert(components(front).push(name).drop_last() =~= components(front));
}

} // verus!
