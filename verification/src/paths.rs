//! Unix paths as text, compared component by component.
//!
//! `a//b`, `a/./b` and `a/b` name the same path, and `/ab` does not lie under
//! `/a`: what counts is the sequence of components, not the characters.

use crate::text;
use vstd::prelude::*;
use vstd::string::*;

verus! {

/// What a path denotes: whether it starts at the root, and its components in
/// order.
#[verifier::ext_equal]
pub struct PathModel {
    pub absolute: bool,
    pub parts: Seq<Seq<char>>,
}

/// A piece between slashes counts as a component unless it is empty, or a dot
/// that does not start the path.
pub open spec fn is_part(pieces: Seq<Seq<char>>, i: int) -> bool {
    pieces[i].len() > 0 && (i == 0 || pieces[i] != seq!['.'])
}

/// The components among the pieces between slashes.
pub open spec fn parts_of(pieces: Seq<Seq<char>>) -> Seq<Seq<char>>
    decreases pieces.len(),
{
    if pieces.len() == 0 {
        Seq::empty()
    } else {
        let before = parts_of(pieces.drop_last());
        if is_part(pieces, pieces.len() - 1) {
            before.push(pieces.last())
        } else {
            before
        }
    }
}

/// The path that a text denotes.
pub open spec fn path_of(text: Seq<char>) -> PathModel {
    PathModel {
        absolute: text.len() > 0 && text[0] == '/',
        parts: parts_of(text::split_on(text, '/')),
    }
}

/// `path` is `base` or lies below it.
pub open spec fn lies_under(path: PathModel, base: PathModel) -> bool {
    ||| !base.absolute && base.parts.len() == 0
    ||| path.absolute == base.absolute && base.parts.len() <= path.parts.len()
        && path.parts.subrange(0, base.parts.len() as int) == base.parts
}

/// The directory that holds a path: the path without its last component. The
/// root and the empty path have none.
pub open spec fn parent_of(path: PathModel) -> Option<PathModel> {
    if path.parts.len() == 0 {
        None
    } else {
        Some(PathModel { absolute: path.absolute, parts: path.parts.drop_last() })
    }
}

/// The last component, unless it points upwards or stands for the directory
/// itself.
pub open spec fn name_of(path: PathModel) -> Option<Seq<char>> {
    if path.parts.len() == 0 || path.parts.last() == seq!['.', '.'] || path.parts.last() == seq![
        '.',
    ] {
        None
    } else {
        Some(path.parts.last())
    }
}

/// The components with one slash between them.
pub open spec fn joined_parts(parts: Seq<Seq<char>>) -> Seq<char>
    decreases parts.len(),
{
    if parts.len() == 0 {
        Seq::empty()
    } else if parts.len() == 1 {
        parts[0]
    } else {
        joined_parts(parts.drop_last()).push('/') + parts.last()
    }
}

/// The plainest text that denotes a path.
pub open spec fn path_text(path: PathModel) -> Seq<char> {
    if path.absolute {
        seq!['/'] + joined_parts(path.parts)
    } else {
        joined_parts(path.parts)
    }
}

/// The text of `name` looked up from `base`: `name` itself where it is
/// absolute, else the two with a slash between them.
pub open spec fn join_text(base: Seq<char>, name: Seq<char>) -> Seq<char> {
    if name.len() > 0 && name[0] == '/' {
        name
    } else if base.len() == 0 || base.last() == '/' {
        base + name
    } else {
        base.push('/') + name
    }
}

/// A path taken apart.
pub struct ParsedPath {
    pub absolute: bool,
    pub parts: Vec<String>,
}

impl View for ParsedPath {
    type V = PathModel;

    open spec fn view(&self) -> PathModel {
        PathModel { absolute: self.absolute, parts: text::texts(self.parts@) }
    }
}

/// Takes a path apart.
pub fn parse_path(text: &str) -> (path: ParsedPath)
    ensures
        path@ == path_of(text@),
{
    let chars = text::chars_of(text);
    let absolute = chars.len() > 0 && chars[0] == '/';
    let pieces = text::split_text(text, '/');
    let ghost all = text::split_on(text@, '/');
    let mut parts: Vec<String> = Vec::new();
    let mut i: usize = 0;
    assert(text::texts(parts@) =~= parts_of(all.take(0)));
    while i < pieces.len()
        invariant
            i <= pieces@.len(),
            all == text::texts(pieces@),
            text::texts(parts@) == parts_of(all.take(i as int)),
        decreases pieces@.len() - i,
    {
        let ghost seen = all.take(i + 1);
        assert(seen.drop_last() =~= all.take(i as int));
        assert(seen.last() == pieces@[i as int]@);
        let dot = text::chars_of(pieces[i].as_str());
        let is_dot = dot.len() == 1 && dot[0] == '.';
        assert(is_dot == (pieces@[i as int]@ =~= seq!['.']));
        if dot.len() > 0 && (i == 0 || !is_dot) {
            assert(is_part(seen, i as int));
            let part = pieces[i].clone();
            proof {
                text::texts_push(parts@, part);
            }
            parts.push(part);
        } else {
            assert(!is_part(seen, i as int));
        }
        i += 1;
    }
    assert(all.take(all.len() as int) =~= all);
    ParsedPath { absolute, parts }
}

/// Whether the first `count` components of two paths are the same.
fn same_parts(a: &Vec<String>, b: &Vec<String>, count: usize) -> (r: bool)
    requires
        count <= a@.len(),
        count <= b@.len(),
    ensures
        r == (text::texts(a@).subrange(0, count as int) == text::texts(b@).subrange(0, count as int)),
{
    let mut i: usize = 0;
    while i < count
        invariant
            i <= count,
            count <= a@.len(),
            count <= b@.len(),
            forall|k: int| 0 <= k < i ==> text::texts(a@)[k] == text::texts(b@)[k],
        decreases count - i,
    {
        if !text::same_text(a[i].as_str(), b[i].as_str()) {
            assert(text::texts(a@)[i as int] != text::texts(b@)[i as int]);
            assert(text::texts(a@).subrange(0, count as int)[i as int] != text::texts(b@).subrange(
                0,
                count as int,
            )[i as int]);
            return false;
        }
        i += 1;
    }
    assert(text::texts(a@).subrange(0, count as int) =~= text::texts(b@).subrange(0, count as int));
    true
}

/// Whether `path` is `base` or lies below it.
pub fn path_starts_with(path: &str, base: &str) -> (r: bool)
    ensures
        r == lies_under(path_of(path@), path_of(base@)),
{
    let p = parse_path(path);
    let b = parse_path(base);
    if !b.absolute && b.parts.len() == 0 {
        return true;
    }
    if p.absolute != b.absolute || b.parts.len() > p.parts.len() {
        return false;
    }
    let r = same_parts(&p.parts, &b.parts, b.parts.len());
    assert(b@.parts.subrange(0, b@.parts.len() as int) =~= b@.parts);
    r
}

/// Whether two texts denote the same path.
pub fn path_equals(a: &str, b: &str) -> (r: bool)
    ensures
        r == (path_of(a@) == path_of(b@)),
{
    let x = parse_path(a);
    let y = parse_path(b);
    if x.absolute != y.absolute || x.parts.len() != y.parts.len() {
        assert(x@.absolute != y@.absolute || x@.parts.len() != y@.parts.len());
        return false;
    }
    let r = same_parts(&x.parts, &y.parts, y.parts.len());
    assert(x@.parts.subrange(0, x@.parts.len() as int) =~= x@.parts);
    assert(y@.parts.subrange(0, y@.parts.len() as int) =~= y@.parts);
    r
}

/// The components with one slash between them, the first `count` of them.
fn join_parts(parts: &Vec<String>, count: usize) -> (text: String)
    requires
        count <= parts@.len(),
    ensures
        text@ == joined_parts(text::texts(parts@).take(count as int)),
{
    let mut text = String::new();
    let mut i: usize = 0;
    while i < count
        invariant
            i <= count <= parts@.len(),
            text@ == joined_parts(text::texts(parts@).take(i as int)),
        decreases count - i,
    {
        let ghost done = text::texts(parts@).take(i as int);
        let ghost next = text::texts(parts@).take(i + 1);
        assert(next.drop_last() =~= done);
        assert(next.last() == parts@[i as int]@);
        if i > 0 {
            text.push('/');
        } else {
            assert(done.len() == 0);
        }
        text.append(parts[i].as_str());
        assert(text@ =~= joined_parts(next));
        i += 1;
    }
    text
}

/// The text of the first `count` components of a path.
fn render_path(absolute: bool, parts: &Vec<String>, count: usize) -> (text: String)
    requires
        count <= parts@.len(),
    ensures
        text@ == path_text(PathModel { absolute, parts: text::texts(parts@).take(count as int) }),
{
    let rest = join_parts(parts, count);
    if absolute {
        let mut text = String::new();
        text.push('/');
        text.append(rest.as_str());
        assert(text@ =~= seq!['/'] + rest@);
        text
    } else {
        rest
    }
}

/// The directory that holds a path.
pub fn path_parent(path: &str) -> (parent: Option<String>)
    ensures
        match parent {
            Some(text) => parent_of(path_of(path@)) is Some && text@ == path_text(
                parent_of(path_of(path@))->0,
            ),
            None => parent_of(path_of(path@)) is None,
        },
{
    let p = parse_path(path);
    let count: usize = p.parts.len();
    if count == 0 {
        return None;
    }
    assert(p@.parts.drop_last() =~= p@.parts.take(count - 1));
    Some(render_path(p.absolute, &p.parts, count - 1))
}

/// The last component of a path.
pub fn path_file_name(path: &str) -> (name: Option<String>)
    ensures
        match name {
            Some(text) => name_of(path_of(path@)) == Some(text@),
            None => name_of(path_of(path@)) is None,
        },
{
    let p = parse_path(path);
    let count: usize = p.parts.len();
    if count == 0 {
        return None;
    }
    let last = p.parts[count - 1].clone();
    assert(last@ == p@.parts.last());
    let chars = text::chars_of(last.as_str());
    if chars.len() == 1 && chars[0] == '.' {
        assert(last@ =~= seq!['.']);
        return None;
    }
    if chars.len() == 2 && chars[0] == '.' && chars[1] == '.' {
        assert(last@ =~= seq!['.', '.']);
        return None;
    }
    Some(last)
}

/// `name` looked up from `base`.
pub fn path_join(base: &str, name: &str) -> (text: String)
    ensures
        text@ == join_text(base@, name@),
{
    let n = text::chars_of(name);
    if n.len() > 0 && n[0] == '/' {
        return name.to_owned();
    }
    let b = text::chars_of(base);
    let mut text = base.to_owned();
    if b.len() > 0 && b[b.len() - 1] != '/' {
        text.push('/');
    }
    text.append(name);
    text
}

// ---------------------------------------------------------------------------
// The order of paths
// ---------------------------------------------------------------------------

/// `a` ranks before `b` as a component: the directory itself, then the one
/// above, then names by their text.
pub open spec fn part_less(a: Seq<char>, b: Seq<char>) -> bool {
    if part_rank(a) != part_rank(b) {
        part_rank(a) < part_rank(b)
    } else {
        part_rank(a) == 2 && text::text_less(a, b)
    }
}

pub open spec fn part_rank(p: Seq<char>) -> nat {
    if p == seq!['.'] {
        0
    } else if p == seq!['.', '.'] {
        1
    } else {
        2
    }
}

/// Components compared one after the other; fewer come first.
pub open spec fn parts_less(a: Seq<Seq<char>>, b: Seq<Seq<char>>) -> bool
    decreases a.len(),
{
    if b.len() == 0 {
        false
    } else if a.len() == 0 {
        true
    } else if a[0] != b[0] {
        part_less(a[0], b[0])
    } else {
        parts_less(a.subrange(1, a.len() as int), b.subrange(1, b.len() as int))
    }
}

/// `a` comes before `b`: a path from the root comes before a relative one that
/// has a component, then the components decide.
pub open spec fn path_less(a: PathModel, b: PathModel) -> bool {
    if a.absolute != b.absolute {
        if a.absolute {
            b.parts.len() > 0
        } else {
            a.parts.len() == 0
        }
    } else {
        parts_less(a.parts, b.parts)
    }
}

proof fn part_order_total(a: Seq<char>, b: Seq<char>)
    ensures
        !(part_less(a, b) && part_less(b, a)),
        a != b ==> part_less(a, b) || part_less(b, a),
        a == b ==> !part_less(a, b),
{
    text::text_order_total(a, b);
}

proof fn part_order_transitive(a: Seq<char>, b: Seq<char>, c: Seq<char>)
    requires
        part_less(a, b),
        part_less(b, c),
    ensures
        part_less(a, c),
{
    if part_rank(a) == 2 && part_rank(b) == 2 && part_rank(c) == 2 {
        text::text_order_transitive(a, b, c);
    }
}

proof fn parts_order_total(a: Seq<Seq<char>>, b: Seq<Seq<char>>)
    ensures
        !(parts_less(a, b) && parts_less(b, a)),
        a != b ==> parts_less(a, b) || parts_less(b, a),
        a == b ==> !parts_less(a, b),
    decreases a.len(),
{
    if a.len() > 0 && b.len() > 0 {
        part_order_total(a[0], b[0]);
        if a[0] == b[0] {
            let ta = a.subrange(1, a.len() as int);
            let tb = b.subrange(1, b.len() as int);
            parts_order_total(ta, tb);
            if ta == tb {
                assert(a =~= seq![a[0]] + ta);
                assert(b =~= seq![b[0]] + tb);
            }
        }
    } else if a.len() == 0 && b.len() == 0 {
        assert(a =~= b);
    }
}

proof fn parts_order_transitive(a: Seq<Seq<char>>, b: Seq<Seq<char>>, c: Seq<Seq<char>>)
    requires
        parts_less(a, b),
        parts_less(b, c),
    ensures
        parts_less(a, c),
    decreases a.len(),
{
    if a.len() > 0 && b.len() > 0 && c.len() > 0 {
        if a[0] == b[0] && b[0] == c[0] {
            parts_order_transitive(
                a.subrange(1, a.len() as int),
                b.subrange(1, b.len() as int),
                c.subrange(1, c.len() as int),
            );
        } else if a[0] != b[0] && b[0] != c[0] {
            part_order_transitive(a[0], b[0], c[0]);
            part_order_total(a[0], c[0]);
        }
    }
}

/// Of two paths exactly one comes before the other, unless they are the same.
pub proof fn path_order_total(a: PathModel, b: PathModel)
    ensures
        !(path_less(a, b) && path_less(b, a)),
        a != b ==> path_less(a, b) || path_less(b, a),
        a == b ==> !path_less(a, b),
{
    parts_order_total(a.parts, b.parts);
}

/// The order of paths is transitive.
pub proof fn path_order_transitive(a: PathModel, b: PathModel, c: PathModel)
    requires
        path_less(a, b),
        path_less(b, c),
    ensures
        path_less(a, c),
{
    if a.absolute == b.absolute && b.absolute == c.absolute {
        parts_order_transitive(a.parts, b.parts, c.parts);
    }
}

fn part_is_less(a: &str, b: &str) -> (r: bool)
    ensures
        r == part_less(a@, b@),
{
    let ra = rank_part(a);
    let rb = rank_part(b);
    if ra != rb {
        ra < rb
    } else {
        ra == 2 && text::text_is_less(a, b)
    }
}

fn rank_part(p: &str) -> (r: u8)
    ensures
        r == part_rank(p@),
{
    let chars = text::chars_of(p);
    if chars.len() == 1 && chars[0] == '.' {
        assert(p@ =~= seq!['.']);
        0
    } else if chars.len() == 2 && chars[0] == '.' && chars[1] == '.' {
        assert(p@ =~= seq!['.', '.']);
        1
    } else {
        2
    }
}

/// Whether `a` comes before `b`.
pub fn path_is_less(a: &str, b: &str) -> (r: bool)
    ensures
        r == path_less(path_of(a@), path_of(b@)),
{
    let x = parse_path(a);
    let y = parse_path(b);
    if x.absolute != y.absolute {
        return if x.absolute {
            y.parts.len() > 0
        } else {
            x.parts.len() == 0
        };
    }
    let ghost xs = text::texts(x.parts@);
    let ghost ys = text::texts(y.parts@);
    let mut i: usize = 0;
    assert(xs.subrange(0, xs.len() as int) =~= xs);
    assert(ys.subrange(0, ys.len() as int) =~= ys);
    while i < x.parts.len() && i < y.parts.len()
        invariant
            i <= x.parts@.len(),
            i <= y.parts@.len(),
            xs == text::texts(x.parts@),
            ys == text::texts(y.parts@),
            parts_less(xs, ys) == parts_less(
                xs.subrange(i as int, xs.len() as int),
                ys.subrange(i as int, ys.len() as int),
            ),
            path_less(path_of(a@), path_of(b@)) == parts_less(xs, ys),
        decreases x.parts@.len() - i,
    {
        let ghost rx = xs.subrange(i as int, xs.len() as int);
        let ghost ry = ys.subrange(i as int, ys.len() as int);
        assert(rx[0] == x.parts@[i as int]@);
        assert(ry[0] == y.parts@[i as int]@);
        if !text::same_text(x.parts[i].as_str(), y.parts[i].as_str()) {
            return part_is_less(x.parts[i].as_str(), y.parts[i].as_str());
        }
        assert(rx.subrange(1, rx.len() as int) =~= xs.subrange(i + 1, xs.len() as int));
        assert(ry.subrange(1, ry.len() as int) =~= ys.subrange(i + 1, ys.len() as int));
        i += 1;
    }
    i < y.parts.len()
}

// ---------------------------------------------------------------------------
// Laws
// ---------------------------------------------------------------------------

/// A path lies under itself, and under whatever its base lies under.
pub proof fn lies_under_is_partial_order(a: PathModel, b: PathModel, c: PathModel)
    ensures
        lies_under(a, a),
        lies_under(a, b) && lies_under(b, c) ==> lies_under(a, c),
        lies_under(a, b) && lies_under(b, a) ==> a == b,
{
    assert(a.parts.subrange(0, a.parts.len() as int) =~= a.parts);
    assert(b.parts.subrange(0, b.parts.len() as int) =~= b.parts);
    if lies_under(a, b) && lies_under(b, c) && (c.absolute || c.parts.len() > 0) {
        assert(b.absolute == c.absolute);
        assert(a.parts.subrange(0, c.parts.len() as int) =~= a.parts.subrange(
            0,
            b.parts.len() as int,
        ).subrange(0, c.parts.len() as int));
    }
    if lies_under(a, b) && lies_under(b, a) {
        if !b.absolute && b.parts.len() == 0 {
            if a.absolute || a.parts.len() > 0 {
                assert(false);
            }
            assert(a.parts =~= b.parts);
        } else if !a.absolute && a.parts.len() == 0 {
            assert(false);
        } else {
            assert(a.parts =~= b.parts);
        }
    }
}

/// A path lies under its parent, which is not the path itself.
pub proof fn lies_under_parent(path: PathModel)
    requires
        parent_of(path) is Some,
    ensures
        lies_under(path, parent_of(path)->0),
        parent_of(path)->0 != path,
{
    let parent = parent_of(path)->0;
    assert(path.parts.subrange(0, parent.parts.len() as int) =~= parent.parts);
    assert(parent.parts.len() != path.parts.len());
}

/// A name as a directory lists it.
pub open spec fn is_entry_name(name: Seq<char>) -> bool {
    &&& name.len() > 0
    &&& !name.contains('/')
    &&& name != seq!['.']
    &&& name != seq!['.', '.']
}

proof fn split_with_name(base: Seq<char>, name: Seq<char>)
    requires
        !name.contains('/'),
    ensures
        text::split_on(base.push('/') + name, '/') == text::split_on(base, '/').push(name),
    decreases name.len(),
{
    let all = base.push('/') + name;
    if name.len() == 0 {
        assert(all =~= base.push('/'));
        assert(all.drop_last() =~= base);
        assert(name =~= Seq::<char>::empty());
    } else {
        let less = name.drop_last();
        assert(name[name.len() - 1] != '/');
        assert forall|i: int| 0 <= i < less.len() implies less[i] != '/' by {
            assert(name.contains(name[i]));
        }
        split_with_name(base, less);
        assert(all.drop_last() =~= base.push('/') + less);
        assert(all.last() == name.last());
        assert(less.push(name.last()) =~= name);
        let before = text::split_on(base, '/');
        assert(before.push(less).update(before.len() as int, name) =~= before.push(name));
    }
}

proof fn split_of_name(name: Seq<char>)
    requires
        !name.contains('/'),
    ensures
        text::split_on(name, '/') == seq![name],
    decreases name.len(),
{
    if name.len() == 0 {
        assert(name =~= Seq::<char>::empty());
    } else {
        let less = name.drop_last();
        assert(name[name.len() - 1] != '/');
        assert forall|i: int| 0 <= i < less.len() implies less[i] != '/' by {
            assert(name.contains(name[i]));
        }
        split_of_name(less);
        assert(less.push(name.last()) =~= name);
        assert(seq![less].update(0, name) =~= seq![name]);
    }
}

/// An entry of a directory lies right below it: its path is the directory's with
/// the name at the end.
pub proof fn entries_lie_below(base: Seq<char>, name: Seq<char>)
    requires
        is_entry_name(name),
    ensures
        path_of(join_text(base, name)) == (PathModel {
            parts: path_of(base).parts.push(name),
            ..path_of(base)
        }),
        parent_of(path_of(join_text(base, name))) == Some(path_of(base)),
{
    assert(name[0] != '/');
    let joined = join_text(base, name);
    let pieces = text::split_on(joined, '/');
    if base.len() == 0 {
        assert(joined =~= name);
        split_of_name(name);
        assert(pieces.drop_last() =~= Seq::<Seq<char>>::empty());
        let none = text::split_on(base, '/');
        assert(none.drop_last() =~= Seq::<Seq<char>>::empty());
        assert(parts_of(none) =~= Seq::<Seq<char>>::empty()) by {
            reveal_with_fuel(parts_of, 2);
        }
        assert(parts_of(pieces) =~= seq![name]) by {
            reveal_with_fuel(parts_of, 2);
        }
    } else {
        let start = if base.last() == '/' {
            base.drop_last()
        } else {
            base
        };
        assert(joined =~= start.push('/') + name);
        split_with_name(start, name);
        text::split_on_not_empty(start, '/');
        let before = text::split_on(start, '/');
        assert(pieces.drop_last() =~= before);
        assert(is_part(pieces, pieces.len() - 1));
        if base.last() == '/' {
            assert(text::split_on(base, '/') == before.push(Seq::<char>::empty()));
            assert(before.push(Seq::<char>::empty()).drop_last() =~= before);
            assert(parts_of(text::split_on(base, '/')) == parts_of(before));
        }
        assert(joined[0] == base[0]);
    }
    assert(path_of(joined).parts =~= path_of(base).parts.push(name));
    assert(path_of(joined).parts.drop_last() =~= path_of(base).parts);
}

/// Entries of one directory do not lie in one another, and what lies in one of
/// them lies in the directory.
pub proof fn entries_lie_apart(dir: Seq<char>, a: Seq<char>, b: Seq<char>)
    requires
        is_entry_name(a),
        is_entry_name(b),
    ensures
        lies_under(path_of(join_text(dir, a)), path_of(dir)),
        lies_under(path_of(join_text(dir, a)), path_of(join_text(dir, b))) <==> a == b,
        path_of(join_text(dir, a)) == path_of(join_text(dir, b)) <==> a == b,
        !lies_under(path_of(dir), path_of(join_text(dir, a))),
        name_of(path_of(join_text(dir, a))) == Some(a),
{
    entries_lie_below(dir, a);
    entries_lie_below(dir, b);
    let parts = path_of(dir).parts;
    assert(parts.push(a).subrange(0, parts.len() as int) =~= parts);
    assert(parts.push(a).subrange(0, parts.push(b).len() as int) =~= parts.push(a));
    assert(parts.push(a).last() == a && parts.push(b).last() == b);
    assert(parts.push(a).last() != seq!['.', '.']);
}

/// A path lies under another exactly where it is that path with more components
/// behind it, or none; everything that is relative or absolute lies under the
/// empty path.
pub proof fn what_lies_under_goes_on(base: PathModel, rest: Seq<Seq<char>>, other: PathModel)
    ensures
        lies_under(PathModel { absolute: base.absolute, parts: base.parts + rest }, base),
        lies_under(other, base) && (base.absolute || base.parts.len() > 0) ==> exists|more: Seq<
            Seq<char>,
        >|
            other.parts == #[trigger] (base.parts + more) && other.absolute == base.absolute,
{
    let longer = base.parts + rest;
    assert(longer.subrange(0, base.parts.len() as int) =~= base.parts);
    if lies_under(other, base) && (base.absolute || base.parts.len() > 0) {
        let n = base.parts.len() as int;
        let more = other.parts.subrange(n, other.parts.len() as int);
        assert(other.parts =~= base.parts + more);
    }
}

/// The text of a path made of names denotes that path again, from the root or
/// not.
pub proof fn texts_of_paths_read_back(path: PathModel)
    requires
        forall|i: int| 0 <= i < path.parts.len() ==> is_entry_name(#[trigger] path.parts[i]),
    ensures
        path_of(path_text(path)) == path,
    decreases path.parts.len(),
{
    let none = Seq::<Seq<char>>::empty();
    let empty = Seq::<char>::empty();
    if path.parts.len() == 0 {
        assert(path.parts =~= none);
        assert(text::split_on(empty, '/') == seq![empty]) by {
            split_of_name(empty);
        }
        assert(seq![empty].drop_last() =~= none);
        assert(parts_of(seq![empty]) =~= none) by {
            reveal_with_fuel(parts_of, 2);
        }
        if path.absolute {
            let root = path_text(path);
            assert(root =~= empty.push('/'));
            assert(root.drop_last() =~= empty);
            let pieces = text::split_on(root, '/');
            assert(pieces =~= seq![empty, empty]);
            assert(pieces.drop_last() =~= seq![empty]);
            assert(parts_of(pieces) =~= none);
        }
    } else {
        let parent = PathModel { absolute: path.absolute, parts: path.parts.drop_last() };
        let name = path.parts.last();
        assert(path.parts[path.parts.len() - 1] == name);
        assert forall|i: int| 0 <= i < parent.parts.len() implies is_entry_name(
            #[trigger] parent.parts[i],
        ) by {
            assert(parent.parts[i] == path.parts[i]);
        }
        texts_of_paths_read_back(parent);
        text_does_not_end_in_slash(parent);
        let base = path_text(parent);
        assert(name[0] != '/') by {
            assert(name.contains(name[0]));
        }
        if parent.parts.len() == 0 {
            assert(parent.parts =~= none);
            assert(joined_parts(parent.parts) =~= empty);
            assert(joined_parts(path.parts) == name);
            assert(join_text(base, name) =~= path_text(path));
        } else {
            assert(join_text(base, name) =~= path_text(path));
        }
        entries_lie_below(base, name);
        assert(parent.parts.push(name) =~= path.parts);
    }
}

proof fn text_does_not_end_in_slash(path: PathModel)
    requires
        forall|i: int| 0 <= i < path.parts.len() ==> is_entry_name(#[trigger] path.parts[i]),
    ensures
        path.parts.len() > 0 ==> joined_parts(path.parts).len() > 0 && joined_parts(
            path.parts,
        ).last() != '/',
{
    if path.parts.len() > 0 {
        let name = path.parts[path.parts.len() - 1];
        assert(is_entry_name(name));
        assert(name.contains(name[name.len() - 1]));
        assert(joined_parts(path.parts).last() == name.last());
    }
}

} // verus!
