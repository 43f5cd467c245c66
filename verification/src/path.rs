//! Paths as text split into components at `/`.
//!
//! Two paths are the same when their components are: a repeated or trailing separator and an
//! inner `.` make no difference. `..` is a component like any other until [`normalise`] resolves
//! it, which it does lexically, without asking a filesystem.

use vstd::prelude::*;
use crate::text::{chars_of, same, text_of};

verus! {

/// One component of a path, as a value in contracts.
#[verifier::ext_equal]
pub enum Part {
    /// The leading separator of an absolute path.
    Root,
    /// A leading `.`.
    Cur,
    /// `..`.
    Parent,
    /// A name.
    Name(Seq<char>),
}

/// One component of a path.
#[derive(Debug)]
pub enum Component {
    RootDir,
    CurDir,
    ParentDir,
    Normal(String),
}

impl View for Component {
    type V = Part;

    open spec fn view(&self) -> Part {
        match self {
            Component::RootDir => Part::Root,
            Component::CurDir => Part::Cur,
            Component::ParentDir => Part::Parent,
            Component::Normal(name) => Part::Name(name@),
        }
    }
}

/// The components a list holds.
pub open spec fn parts_in(list: Seq<Component>) -> Seq<Part> {
    Seq::new(list.len(), |i: int| list[i]@)
}

/// `s` cut at every `/`; always at least one segment.
pub open spec fn segments(s: Seq<char>) -> Seq<Seq<char>>
    decreases s.len(),
{
    if s.len() == 0 {
        seq![Seq::<char>::empty()]
    } else {
        let before = segments(s.drop_last());
        if s.last() == '/' {
            before.push(Seq::empty())
        } else {
            before.update(before.len() - 1, before.last().push(s.last()))
        }
    }
}

/// Whether `s` names an absolute path.
pub open spec fn rooted(s: Seq<char>) -> bool {
    s.len() > 0 && s[0] == '/'
}

/// What one segment contributes: `.` counts only where it leads a relative path.
pub open spec fn segment_parts(segment: Seq<char>, leads: bool) -> Seq<Part> {
    if segment.len() == 0 {
        Seq::empty()
    } else if segment == seq!['.'] {
        if leads {
            seq![Part::Cur]
        } else {
            Seq::empty()
        }
    } else if segment == seq!['.', '.'] {
        seq![Part::Parent]
    } else {
        seq![Part::Name(segment)]
    }
}

/// What the segments contribute, in order.
pub open spec fn segments_parts(list: Seq<Seq<char>>, absolute: bool) -> Seq<Part>
    decreases list.len(),
{
    if list.len() == 0 {
        Seq::empty()
    } else {
        segments_parts(list.drop_last(), absolute) + segment_parts(
            list.last(),
            list.len() == 1 && !absolute,
        )
    }
}

/// The components of a path's text.
pub open spec fn parts_of(s: Seq<char>) -> Seq<Part> {
    if rooted(s) {
        seq![Part::Root] + segments_parts(segments(s), true)
    } else {
        segments_parts(segments(s), false)
    }
}

/// Whether `name` can stand as a component of its own.
pub open spec fn valid_name(name: Seq<char>) -> bool {
    &&& name.len() > 0
    &&& name != seq!['.']
    &&& name != seq!['.', '.']
    &&& !name.contains('/')
}

/// Whether components stand as they do in a path: a root or a `.` only in front.
pub open spec fn well_placed(parts: Seq<Part>) -> bool {
    forall|i: int|
        0 <= i < parts.len() ==> match #[trigger] parts[i] {
            Part::Root => i == 0,
            Part::Cur => i == 0,
            Part::Parent => true,
            Part::Name(name) => valid_name(name),
        }
}

/// The text of one component.
pub open spec fn part_text(part: Part) -> Seq<char> {
    match part {
        Part::Root => seq!['/'],
        Part::Cur => seq!['.'],
        Part::Parent => seq!['.', '.'],
        Part::Name(name) => name,
    }
}

/// The text of a path made of `parts`, with one `/` between each two.
pub open spec fn render(parts: Seq<Part>) -> Seq<char>
    decreases parts.len(),
{
    if parts.len() == 0 {
        Seq::empty()
    } else {
        let before = render(parts.drop_last());
        if before.len() == 0 || before.last() == '/' {
            before + part_text(parts.last())
        } else {
            before.push('/') + part_text(parts.last())
        }
    }
}

/// `parts` with `.` dropped and each `..` resolved against the name before it.
///
/// A `..` with no name to resolve against stays.
pub open spec fn normal_parts(parts: Seq<Part>) -> Seq<Part>
    decreases parts.len(),
{
    if parts.len() == 0 {
        Seq::empty()
    } else {
        let out = normal_parts(parts.drop_last());
        match parts.last() {
            Part::Cur => out,
            Part::Parent => if out.len() > 0 && out.last() is Name {
                out.drop_last()
            } else {
                out.push(Part::Parent)
            },
            part => out.push(part),
        }
    }
}

/// The shortest beginning of `s`, of at least `n` characters, that has these components; all of
/// `s` where none has.
pub open spec fn shortest(s: Seq<char>, parts: Seq<Part>, n: int) -> Seq<char>
    decreases s.len() - n,
{
    if n >= s.len() || parts_of(s.take(n)) == parts {
        s.take(n)
    } else {
        shortest(s, parts, n + 1)
    }
}

/// The text of a path without its last component, as it is spelt up to there: what separates the
/// two goes too. `None` for a root and for the empty path.
pub open spec fn parent_of(s: Seq<char>) -> Option<Seq<char>> {
    if parts_of(s).len() > 0 && !(parts_of(s).last() is Root) {
        Some(shortest(s, parts_of(s).drop_last(), 0))
    } else {
        None
    }
}

/// Whether `inner` begins with all of `outer`, component by component.
pub open spec fn under(inner: Seq<Part>, outer: Seq<Part>) -> bool {
    outer.len() <= inner.len() && inner.take(outer.len() as int) == outer
}

// ---------------------------------------------------------------------------
// Cutting and rendering undo each other
// ---------------------------------------------------------------------------

proof fn lemma_segments_nonempty(s: Seq<char>)
    ensures
        segments(s).len() > 0,
        forall|i: int| 0 <= i < segments(s).len() ==> !(#[trigger] segments(s)[i]).contains('/'),
    decreases s.len(),
{
    if s.len() > 0 {
        lemma_segments_nonempty(s.drop_last());
        let before = segments(s.drop_last());
        assert forall|i: int| 0 <= i < segments(s).len() implies !(#[trigger] segments(
            s,
        )[i]).contains('/') by {
            if s.last() != '/' && i == before.len() - 1 {
                let last = before.last();
                assert(!last.contains('/'));
                assert forall|k: int| 0 <= k < last.push(s.last()).len() implies last.push(
                    s.last(),
                )[k] != '/' by {
                    if k < last.len() {
                        assert(last.contains(last[k]));
                    }
                }
            } else if i < before.len() {
                assert(segments(s)[i] == before[i]);
            }
        }
    }
}

proof fn lemma_segments_parts_placed(list: Seq<Seq<char>>, absolute: bool)
    requires
        forall|i: int| 0 <= i < list.len() ==> !(#[trigger] list[i]).contains('/'),
    ensures
        well_placed(segments_parts(list, absolute)),
        forall|i: int|
            0 <= i < segments_parts(list, absolute).len() ==> !(#[trigger] segments_parts(
                list,
                absolute,
            )[i] is Root),
        absolute ==> forall|i: int|
            0 <= i < segments_parts(list, absolute).len() ==> !(#[trigger] segments_parts(
                list,
                absolute,
            )[i] is Cur),
        list.len() == 1 ==> segments_parts(list, absolute).len() <= 1,
    decreases list.len(),
{
    if list.len() > 0 {
        let rest = list.drop_last();
        assert forall|i: int| 0 <= i < rest.len() implies !(#[trigger] rest[i]).contains('/') by {
            assert(rest[i] == list[i]);
        }
        lemma_segments_parts_placed(rest, absolute);
        let before = segments_parts(rest, absolute);
        let now = segments_parts(list, absolute);
        let last = list.last();
        assert(!list[list.len() - 1].contains('/'));
        if list.len() == 1 {
            assert(rest.len() == 0);
            assert(before =~= Seq::<Part>::empty());
        }
        assert forall|i: int| 0 <= i < now.len() implies match #[trigger] now[i] {
            Part::Root => i == 0,
            Part::Cur => i == 0,
            Part::Parent => true,
            Part::Name(name) => valid_name(name),
        } && !(now[i] is Root) && (absolute ==> !(now[i] is Cur)) by {
            if i < before.len() {
                assert(now[i] == before[i]);
            }
        }
    }
}

/// The components of any text are well placed.
pub proof fn lemma_parts_placed(s: Seq<char>)
    ensures
        well_placed(parts_of(s)),
{
    lemma_segments_nonempty(s);
    lemma_segments_parts_placed(segments(s), rooted(s));
    let parts = parts_of(s);
    if rooted(s) {
        let rest = segments_parts(segments(s), true);
        assert forall|i: int| 0 <= i < parts.len() implies match #[trigger] parts[i] {
            Part::Root => i == 0,
            Part::Cur => i == 0,
            Part::Parent => true,
            Part::Name(name) => valid_name(name),
        } by {
            if i > 0 {
                assert(parts[i] == rest[i - 1]);
            }
        }
    }
}

proof fn lemma_segments_append(s: Seq<char>, name: Seq<char>)
    requires
        !name.contains('/'),
    ensures
        segments(s + name) == segments(s).update(
            segments(s).len() - 1,
            segments(s).last() + name,
        ),
    decreases name.len(),
{
    lemma_segments_nonempty(s);
    if name.len() == 0 {
        assert(s + name =~= s);
        assert(segments(s).last() + name =~= segments(s).last());
        assert(segments(s).update(segments(s).len() - 1, segments(s).last()) =~= segments(s));
    } else {
        let short = name.drop_last();
        assert(!short.contains('/')) by {
            if short.contains('/') {
                let k = choose|k: int| 0 <= k < short.len() && short[k] == '/';
                assert(name[k] == '/');
                assert(name.contains('/'));
            }
        }
        lemma_segments_append(s, short);
        assert((s + name).drop_last() =~= s + short);
        assert(name.last() != '/') by {
            assert(name.contains(name[name.len() - 1]));
        }
        assert((segments(s).last() + short).push(name.last()) =~= segments(s).last() + name);
        assert(segments(s + name) =~= segments(s).update(
            segments(s).len() - 1,
            segments(s).last() + name,
        ));
    }
}

proof fn lemma_render_shape(parts: Seq<Part>)
    requires
        well_placed(parts),
    ensures
        parts.len() > 0 ==> render(parts).len() > 0,
        (parts.len() > 0 && render(parts).last() == '/') ==> parts.len() == 1 && parts[0] is Root,
        rooted(render(parts)) == (parts.len() > 0 && parts[0] is Root),
    decreases parts.len(),
{
    if parts.len() > 0 {
        let rest = parts.drop_last();
        assert forall|i: int| 0 <= i < rest.len() implies match #[trigger] rest[i] {
            Part::Root => i == 0,
            Part::Cur => i == 0,
            Part::Parent => true,
            Part::Name(name) => valid_name(name),
        } by {
            assert(rest[i] == parts[i]);
        }
        lemma_render_shape(rest);
        let last = parts[parts.len() - 1];
        let text = part_text(last);
        let before = render(rest);
        match last {
            Part::Name(name) => {
                assert(name.contains(name[name.len() - 1]));
                assert(name.contains(name[0]));
            },
            _ => {},
        }
        if rest.len() > 0 {
            assert(rest[0] == parts[0]);
            assert(render(parts)[0] == before[0]);
        } else {
            assert(before.len() == 0);
            assert(render(parts) =~= text);
        }
        assert(render(parts).last() == text.last());
    }
}

/// A path rendered from well-placed components has those components.
pub proof fn lemma_render_parts(parts: Seq<Part>)
    requires
        well_placed(parts),
    ensures
        parts_of(render(parts)) == parts,
    decreases parts.len(),
{
    lemma_render_shape(parts);
    if parts.len() == 0 {
        assert(segments_parts(seq![Seq::<char>::empty()].drop_last(), false) =~= Seq::empty());
        assert(parts_of(render(parts)) =~= parts);
    } else {
        let rest = parts.drop_last();
        assert forall|i: int| 0 <= i < rest.len() implies match #[trigger] rest[i] {
            Part::Root => i == 0,
            Part::Cur => i == 0,
            Part::Parent => true,
            Part::Name(name) => valid_name(name),
        } by {
            assert(rest[i] == parts[i]);
        }
        lemma_render_parts(rest);
        lemma_render_shape(rest);
        let before = render(rest);
        let last = parts[parts.len() - 1];
        let text = part_text(last);
        lemma_segments_nonempty(before);
        if last is Root {
            assert(rest =~= Seq::<Part>::empty());
            assert(before =~= Seq::<char>::empty());
            let s = render(parts);
            assert(s =~= seq!['/']);
            assert(s.drop_last() =~= Seq::<char>::empty());
            assert(segments(s.drop_last()) =~= seq![Seq::<char>::empty()]);
            assert(segments(s) =~= seq![Seq::<char>::empty(), Seq::<char>::empty()]);
            let two = segments(s);
            assert(two.drop_last().drop_last() =~= Seq::<Seq<char>>::empty());
            assert(segments_parts(two.drop_last().drop_last(), true) =~= Seq::<Part>::empty());
            assert(segments_parts(two.drop_last(), true) =~= Seq::<Part>::empty());
            assert(segments_parts(two, true) =~= Seq::<Part>::empty());
            assert(parts_of(s) =~= seq![Part::Root]);
            assert(parts =~= seq![Part::Root]);
        } else {
            assert(!text.contains('/'));
            if before.len() == 0 {
                assert(rest.len() == 0);
                assert(render(parts) =~= text);
                lemma_segments_append(Seq::empty(), text);
                assert(Seq::<char>::empty() + text =~= text);
                assert(segments(text) =~= seq![text]);
                assert(segments(text).drop_last() =~= Seq::<Seq<char>>::empty());
                assert(segments_parts(segments(text).drop_last(), false) =~= Seq::<Part>::empty());
                assert(text == seq!['.', '.'] ==> last is Parent);
                assert(text == seq!['.'] ==> last is Cur);
                assert(parts_of(text) =~= seq![last]);
                assert(parts =~= seq![last]);
            } else {
                let open = if before.last() == '/' {
                    before
                } else {
                    before.push('/')
                };
                assert(render(parts) =~= open + text);
                lemma_segments_nonempty(open);
                lemma_segments_append(open, text);
                // The open text ends in a separator, so its last segment is empty.
                assert(open.len() > 0 && open.last() == '/');
                assert(segments(open).last() =~= Seq::<char>::empty());
                assert(Seq::<char>::empty() + text =~= text);
                let list = segments(open + text);
                assert(list.last() == text);
                assert(list.drop_last() =~= segments(open).drop_last());
                assert(rooted(open) == rooted(before));
                assert(rooted(open + text) == rooted(open));
                let absolute = rooted(open);
                assert(segments(open).len() >= 2) by {
                    lemma_segments_nonempty(open.drop_last());
                }
                // Dropping the empty last segment of the open text loses no component.
                assert(segments_parts(segments(open), absolute) =~= segments_parts(
                    segments(open).drop_last(),
                    absolute,
                ));
                if before.last() != '/' {
                    assert(open.drop_last() =~= before);
                    assert(segments(open).drop_last() =~= segments(before));
                } else {
                    assert(open == before);
                }
                assert(segments_parts(segments(open).drop_last(), absolute) == segments_parts(
                    segments(before),
                    absolute,
                ));
                assert(last !is Cur) by {
                    if last is Cur {
                        assert(parts.len() == 1);
                    }
                }
                assert(segment_parts(text, false) =~= seq![last]);
                assert(parts_of(open + text) =~= parts_of(before).push(last));
                assert(parts =~= rest.push(last));
            }
        }
    }
}

/// A name behind a path is one more component.
proof fn lemma_name_appended(s: Seq<char>, name: Seq<char>)
    requires
        s.len() > 0,
        valid_name(name),
    ensures
        parts_of(
            (if s.last() == '/' {
                s
            } else {
                s.push('/')
            }) + name,
        ) == parts_of(s).push(Part::Name(name)),
{
    let open = if s.last() == '/' {
        s
    } else {
        s.push('/')
    };
    lemma_segments_nonempty(s);
    lemma_segments_nonempty(open);
    lemma_segments_append(open, name);
    assert(segments(open).last() =~= Seq::<char>::empty());
    assert(Seq::<char>::empty() + name =~= name);
    let list = segments(open + name);
    assert(list.last() == name);
    assert(list.drop_last() =~= segments(open).drop_last());
    assert(rooted(open) == rooted(s));
    assert((open + name)[0] == open[0]);
    let absolute = rooted(s);
    assert(segments(open).len() >= 2) by {
        lemma_segments_nonempty(open.drop_last());
    }
    assert(segments_parts(segments(open), absolute) =~= segments_parts(
        segments(open).drop_last(),
        absolute,
    ));
    if s.last() != '/' {
        assert(open.drop_last() =~= s);
        assert(segments(open).drop_last() =~= segments(s));
    }
    assert(segments_parts(segments(open).drop_last(), absolute) == segments_parts(
        segments(s),
        absolute,
    ));
    assert(segment_parts(name, false) =~= seq![Part::Name(name)]);
    assert(parts_of(open + name) =~= parts_of(s).push(Part::Name(name)));
}

/// Names behind a path are that many more components.
pub proof fn law_joining_adds_components(s: Seq<char>, names: Seq<Part>)
    requires
        well_placed(names),
        forall|i: int| 0 <= i < names.len() ==> #[trigger] names[i] is Name,
    ensures
        parts_of(join_text(s, render(names))) == parts_of(s) + names,
    decreases names.len(),
{
    lemma_render_shape(names);
    if s.len() == 0 {
        lemma_render_parts(names);
        assert(s =~= Seq::<char>::empty());
        assert(s + render(names) =~= render(names));
        assert(segments_parts(seq![Seq::<char>::empty()].drop_last(), false) =~= Seq::empty());
        assert(parts_of(s) =~= Seq::empty());
        assert(parts_of(s) + names =~= names);
    } else {
        let open = if s.last() == '/' {
            s
        } else {
            s.push('/')
        };
        if names.len() == 0 {
            lemma_trailing_slash(s);
            assert(join_text(s, render(names)) =~= open);
            assert(parts_of(s) + names =~= parts_of(s));
        } else {
            let rest = names.drop_last();
            assert forall|i: int| 0 <= i < rest.len() implies (#[trigger] rest[i] is Name)
                && match rest[i] {
                Part::Name(name) => valid_name(name),
                _ => true,
            } by {
                assert(rest[i] == names[i]);
            }
            lemma_render_shape(rest);
            let name = names[names.len() - 1]->Name_0;
            assert(names.last() == Part::Name(name));
            if rest.len() == 0 {
                assert(render(rest) =~= Seq::<char>::empty());
                assert(render(names) =~= name);
                lemma_name_appended(s, name);
                assert(join_text(s, render(names)) =~= open + name);
                assert(parts_of(s) + names =~= parts_of(s).push(Part::Name(name)));
            } else {
                assert(rest[0] is Name);
                law_joining_adds_components(s, rest);
                let before = join_text(s, render(rest));
                assert(before =~= open + render(rest));
                assert(before.last() == render(rest).last());
                assert(render(rest).last() != '/');
                lemma_name_appended(before, name);
                assert(join_text(s, render(names)) =~= before.push('/') + name);
                assert(parts_of(s) + names =~= (parts_of(s) + rest).push(Part::Name(name)));
            }
        }
    }
}

/// A separator behind a path changes none of its components.
proof fn lemma_trailing_slash(s: Seq<char>)
    requires
        s.len() > 0,
    ensures
        parts_of(s.push('/')) == parts_of(s),
{
    let open = s.push('/');
    lemma_segments_nonempty(s);
    assert(open.drop_last() =~= s);
    assert(segments(open).drop_last() =~= segments(s));
    assert(segments(open).last() =~= Seq::<char>::empty());
    assert(rooted(open) == rooted(s));
    assert(segments_parts(segments(open), rooted(s)) =~= segments_parts(segments(s), rooted(s)));
}

pub(crate) proof fn lemma_normal_placed(parts: Seq<Part>)
    requires
        well_placed(parts),
    ensures
        well_placed(normal_parts(parts)),
        normal_parts(parts).len() <= parts.len(),
        forall|i: int|
            0 <= i < normal_parts(parts).len() ==> !(#[trigger] normal_parts(parts)[i] is Cur),
    decreases parts.len(),
{
    if parts.len() > 0 {
        let rest = parts.drop_last();
        assert forall|i: int| 0 <= i < rest.len() implies match #[trigger] rest[i] {
            Part::Root => i == 0,
            Part::Cur => i == 0,
            Part::Parent => true,
            Part::Name(name) => valid_name(name),
        } by {
            assert(rest[i] == parts[i]);
        }
        lemma_normal_placed(rest);
        let out = normal_parts(rest);
        let now = normal_parts(parts);
        let last = parts[parts.len() - 1];
        assert forall|i: int| 0 <= i < now.len() implies match #[trigger] now[i] {
            Part::Root => i == 0,
            Part::Cur => i == 0,
            Part::Parent => true,
            Part::Name(name) => valid_name(name),
        } && !(now[i] is Cur) by {
            if i < out.len() {
                assert(now[i] == out[i]);
            } else {
                assert(now[i] == last);
                if last is Root {
                    assert(parts.len() == 1);
                }
            }
        }
    }
}

/// What follows the first `n` components of a resolved path is written as nothing only where
/// nothing follows.
pub proof fn lemma_normal_rest_shown(parts: Seq<Part>, n: int)
    requires
        well_placed(parts),
        0 <= n <= normal_parts(parts).len(),
    ensures
        normal_parts(parts).skip(n).len() > 0 ==> render(normal_parts(parts).skip(n)).len() > 0,
{
    lemma_normal_placed(parts);
    let all = normal_parts(parts);
    let rest = all.skip(n);
    if rest.len() > 0 {
        let last = rest[rest.len() - 1];
        assert(last == all[all.len() - 1]);
        assert(part_text(last).len() > 0);
    }
}

/// Resolving leaves no `.`, and no `..` behind a name.
pub proof fn law_normal_form(parts: Seq<Part>)
    requires
        well_placed(parts),
    ensures
        forall|i: int|
            0 <= i < normal_parts(parts).len() ==> !(#[trigger] normal_parts(parts)[i] is Cur),
        forall|i: int, j: int|
            0 <= i < j < normal_parts(parts).len() && (#[trigger] normal_parts(parts)[i] is Name)
                ==> !(#[trigger] normal_parts(parts)[j] is Parent),
    decreases parts.len(),
{
    lemma_normal_placed(parts);
    if parts.len() > 0 {
        let rest = parts.drop_last();
        assert forall|i: int| 0 <= i < rest.len() implies match #[trigger] rest[i] {
            Part::Root => i == 0,
            Part::Cur => i == 0,
            Part::Parent => true,
            Part::Name(name) => valid_name(name),
        } by {
            assert(rest[i] == parts[i]);
        }
        law_normal_form(rest);
        let out = normal_parts(rest);
        let now = normal_parts(parts);
        assert forall|i: int, j: int|
            0 <= i < j < now.len() && (#[trigger] now[i] is Name) implies !(
        #[trigger] now[j] is Parent) by {
            assert(now[i] == out[i]);
            if j < out.len() {
                assert(now[j] == out[j]);
            } else if now[j] is Parent {
                // The `..` was kept, so what stood last was no name.
                assert(!(out[out.len() - 1] is Name));
                if i < out.len() - 1 {
                    lemma_normal_placed(rest);
                    assert(out[out.len() - 1] is Parent);
                }
            }
        }
    }
}

/// A resolved path resolves to itself.
pub proof fn law_normalise_idempotent(parts: Seq<Part>)
    requires
        well_placed(parts),
    ensures
        normal_parts(normal_parts(parts)) == normal_parts(parts),
{
    law_normal_form(parts);
    lemma_normal_fixed(normal_parts(parts));
}

proof fn lemma_normal_fixed(parts: Seq<Part>)
    requires
        forall|i: int| 0 <= i < parts.len() ==> !(#[trigger] parts[i] is Cur),
        forall|i: int, j: int|
            0 <= i < j < parts.len() && (#[trigger] parts[i] is Name) ==> !(
            #[trigger] parts[j] is Parent),
    ensures
        normal_parts(parts) == parts,
    decreases parts.len(),
{
    if parts.len() > 0 {
        let rest = parts.drop_last();
        assert forall|i: int, j: int|
            0 <= i < j < rest.len() && (#[trigger] rest[i] is Name) implies !(
        #[trigger] rest[j] is Parent) by {
            assert(rest[i] == parts[i]);
            assert(rest[j] == parts[j]);
        }
        assert forall|i: int| 0 <= i < rest.len() implies !(#[trigger] rest[i] is Cur) by {
            assert(rest[i] == parts[i]);
        }
        lemma_normal_fixed(rest);
        let last = parts[parts.len() - 1];
        if last is Parent && rest.len() > 0 {
            assert(rest[rest.len() - 1] == parts[parts.len() - 2]);
        }
        assert(rest.push(last) =~= parts);
    }
}

/// A path that goes nowhere but down is resolved already.
pub proof fn law_a_plain_path_resolves_to_itself(parts: Seq<Part>)
    requires
        forall|i: int|
            0 <= i < parts.len() ==> (#[trigger] parts[i] is Root) || parts[i] is Name,
    ensures
        normal_parts(parts) == parts,
{
    lemma_normal_fixed(parts);
}

/// How a path goes on depends on what it resolves to so far, and on nothing else.
proof fn lemma_resolved_so_far(a: Seq<Part>, b: Seq<Part>, more: Seq<Part>)
    requires
        normal_parts(a) == normal_parts(b),
    ensures
        normal_parts(a + more) == normal_parts(b + more),
    decreases more.len(),
{
    if more.len() == 0 {
        assert(a + more =~= a);
        assert(b + more =~= b);
    } else {
        lemma_resolved_so_far(a, b, more.drop_last());
        assert((a + more).drop_last() =~= a + more.drop_last());
        assert((b + more).drop_last() =~= b + more.drop_last());
    }
}

/// Staying where one is, and going down and up again, both change nothing, wherever in a path they
/// stand.
pub proof fn law_detours_make_no_difference(a: Seq<Part>, name: Seq<char>, b: Seq<Part>)
    ensures
        normal_parts(a + seq![Part::Cur] + b) == normal_parts(a + b),
        normal_parts(a + seq![Part::Name(name), Part::Parent] + b) == normal_parts(a + b),
{
    let stay = a + seq![Part::Cur];
    assert(stay.drop_last() =~= a);
    lemma_resolved_so_far(stay, a, b);
    let down = a.push(Part::Name(name));
    let up = a + seq![Part::Name(name), Part::Parent];
    assert(down.drop_last() =~= a);
    assert(up.drop_last() =~= down);
    assert(normal_parts(down) == normal_parts(a).push(Part::Name(name)));
    assert(up.last() is Parent);
    assert(normal_parts(up) =~= normal_parts(a));
    lemma_resolved_so_far(up, a, b);
}

/// Going up from where no name is left to go up from is kept, so that a path that leaves what it
/// is relative to is not taken for one that does not.
pub proof fn law_going_up_further_is_kept(parts: Seq<Part>)
    requires
        normal_parts(parts).len() == 0 || !(normal_parts(parts).last() is Name),
    ensures
        normal_parts(parts.push(Part::Parent)) == normal_parts(parts).push(Part::Parent),
{
    assert(parts.push(Part::Parent).drop_last() =~= parts);
}

// ---------------------------------------------------------------------------
// Parents
// ---------------------------------------------------------------------------

/// Where the last segment of `s` begins.
spec fn last_start(s: Seq<char>) -> int
    decreases s.len(),
{
    if s.len() == 0 || s.last() == '/' {
        s.len() as int
    } else {
        last_start(s.drop_last())
    }
}

proof fn lemma_last_start(s: Seq<char>)
    ensures
        0 <= last_start(s) <= s.len(),
        last_start(s) == 0 || s[last_start(s) - 1] == '/',
        forall|i: int| last_start(s) <= i < s.len() ==> #[trigger] s[i] != '/',
    decreases s.len(),
{
    if s.len() > 0 && s.last() != '/' {
        let rest = s.drop_last();
        lemma_last_start(rest);
        assert forall|i: int| last_start(s) <= i < s.len() implies #[trigger] s[i] != '/' by {
            if i < rest.len() {
                assert(rest[i] == s[i]);
            }
        }
    }
}

proof fn lemma_segments_tail(t: Seq<char>, segment: Seq<char>)
    requires
        forall|i: int| 0 <= i < segment.len() ==> #[trigger] segment[i] != '/',
    ensures
        segments(t).len() > 0,
        segments(t + segment) == segments(t).update(
            segments(t).len() - 1,
            segments(t).last() + segment,
        ),
    decreases segment.len(),
{
    lemma_segments_nonempty(t);
    let before = segments(t);
    if segment.len() == 0 {
        assert(t + segment =~= t);
        assert(before.last() + segment =~= before.last());
        assert(before.update(before.len() - 1, before.last()) =~= before);
    } else {
        let rest = segment.drop_last();
        assert forall|i: int| 0 <= i < rest.len() implies #[trigger] rest[i] != '/' by {
            assert(rest[i] == segment[i]);
        }
        lemma_segments_tail(t, rest);
        assert((t + segment).drop_last() =~= t + rest);
        assert(segment[segment.len() - 1] != '/');
        assert((before.last() + rest).push(segment.last()) =~= before.last() + segment);
        assert(segments(t + segment) =~= before.update(
            before.len() - 1,
            before.last() + segment,
        ));
    }
}

/// What the last segment adds to the components of what is before it.
proof fn lemma_last_segment(s: Seq<char>)
    ensures
        ({
            let j = last_start(s);
            let t = s.take(j);
            parts_of(s) == parts_of(t) + segment_parts(
                s.skip(j),
                segments(t).len() == 1 && !rooted(s),
            )
        }),
{
    lemma_last_start(s);
    let j = last_start(s);
    let t = s.take(j);
    let segment = s.skip(j);
    assert(t + segment =~= s);
    assert forall|i: int| 0 <= i < segment.len() implies #[trigger] segment[i] != '/' by {
        assert(segment[i] == s[j + i]);
    }
    lemma_segments_tail(t, segment);
    let before = segments(t);
    if t.len() > 0 {
        assert(t.last() == '/');
    }
    assert(before.last() =~= Seq::<char>::empty());
    assert(before.last() + segment =~= segment);
    assert(segments(s).drop_last() =~= before.drop_last());
    assert(rooted(s) == rooted(t)) by {
        if t.len() == 0 && s.len() > 0 {
            assert(segment[0] == s[0]);
        }
    }
    let absolute = rooted(s);
    assert(segments_parts(before, absolute) =~= segments_parts(before.drop_last(), absolute));
    assert(parts_of(s) =~= parts_of(t) + segment_parts(
        segment,
        before.len() == 1 && !rooted(s),
    ));
}

/// Some beginning of a path has all of its components but the last.
proof fn lemma_parent_is_there(s: Seq<char>) -> (n: int)
    requires
        parts_of(s).len() > 0,
        !(parts_of(s).last() is Root),
    ensures
        0 <= n <= s.len(),
        parts_of(s.take(n)) == parts_of(s).drop_last(),
    decreases s.len(),
{
    lemma_last_start(s);
    let j = last_start(s);
    if j == s.len() {
        if s.len() == 0 {
            assert(segments_parts(segments(s), false) =~= Seq::<Part>::empty()) by {
                reveal_with_fuel(segments_parts, 2);
            }
            assert(false);
        }
        let rest = s.drop_last();
        lemma_segments_nonempty(rest);
        assert(segments(s).drop_last() =~= segments(rest));
        if rest.len() == 0 {
            reveal_with_fuel(segments, 2);
            reveal_with_fuel(segments_parts, 3);
            assert(parts_of(s) =~= seq![Part::Root]);
            assert(false);
        }
        assert(rooted(rest) == rooted(s));
        assert(segments_parts(segments(s), rooted(s)) =~= segments_parts(
            segments(rest),
            rooted(s),
        ));
        assert(parts_of(s) =~= parts_of(rest));
        let n = lemma_parent_is_there(rest);
        assert(rest.take(n) =~= s.take(n));
        n
    } else {
        lemma_last_segment(s);
        let t = s.take(j);
        let more = segment_parts(s.skip(j), segments(t).len() == 1 && !rooted(s));
        if more.len() == 0 {
            assert(parts_of(s) =~= parts_of(t));
            let n = lemma_parent_is_there(t);
            assert(t.take(n) =~= s.take(n));
            n
        } else {
            assert(parts_of(s).drop_last() =~= parts_of(t));
            j
        }
    }
}

proof fn lemma_shortest(s: Seq<char>, parts: Seq<Part>, n: int, found: int)
    requires
        0 <= n <= found <= s.len(),
        parts_of(s.take(found)) == parts,
    ensures
        parts_of(shortest(s, parts, n)) == parts,
    decreases s.len() - n,
{
    if n < found && parts_of(s.take(n)) != parts {
        lemma_shortest(s, parts, n + 1, found);
    }
}

/// The directory that a path is in is spelt as the path begins, and has all of its components but
/// the last. No shorter beginning has them. Only a root and the empty path are in none.
pub proof fn law_where_a_path_is(s: Seq<char>) -> (n: int)
    ensures
        parent_of(s) is None <==> parts_of(s).len() == 0 || parts_of(s).last() is Root,
        parent_of(s) is Some ==> {
            &&& 0 <= n <= s.len()
            &&& parent_of(s) == Some(s.take(n))
            &&& parts_of(s.take(n)) == parts_of(s).drop_last()
            &&& forall|k: int|
                0 <= k < n ==> #[trigger] parts_of(s.take(k)) != parts_of(s).drop_last()
        },
{
    if parts_of(s).len() > 0 && !(parts_of(s).last() is Root) {
        let found = lemma_parent_is_there(s);
        lemma_first_spelling(s, parts_of(s).drop_last(), 0, found)
    } else {
        0
    }
}

proof fn lemma_first_spelling(s: Seq<char>, parts: Seq<Part>, n: int, found: int) -> (r: int)
    requires
        0 <= n <= found <= s.len(),
        parts_of(s.take(found)) == parts,
    ensures
        n <= r <= found,
        shortest(s, parts, n) == s.take(r),
        parts_of(s.take(r)) == parts,
        forall|k: int| n <= k < r ==> #[trigger] parts_of(s.take(k)) != parts,
    decreases s.len() - n,
{
    if n < found && parts_of(s.take(n)) != parts {
        lemma_first_spelling(s, parts, n + 1, found)
    } else {
        n
    }
}

// ---------------------------------------------------------------------------
// The type
// ---------------------------------------------------------------------------

/// A path, as text with `/` between its components.
///
/// This is how paths are written where `/` separates them. What separates them elsewhere, such as
/// `\` or the colon behind a drive, is part of a name here, and a path that is no text cannot be
/// held. Whether one path is inside another, and with it what a scope allows, is decided on these
/// components.
#[derive(Debug)]
pub struct PathBuf {
    pub text: String,
}

impl View for PathBuf {
    type V = Seq<Part>;

    open spec fn view(&self) -> Seq<Part> {
        parts_of(self.text@)
    }
}

/// The components of each path of a list.
pub open spec fn paths_view(list: Seq<PathBuf>) -> Seq<Seq<Part>> {
    Seq::new(list.len(), |i: int| list[i]@)
}

impl Clone for PathBuf {
    fn clone(&self) -> (r: PathBuf)
        ensures
            r == *self,
    {
        PathBuf { text: self.text.clone() }
    }
}

impl PartialEq for PathBuf {
    fn eq(&self, other: &PathBuf) -> (r: bool) {
        self.same_as(other)
    }
}

impl Eq for PathBuf {

}

impl vstd::std_specs::cmp::PartialEqSpecImpl for PathBuf {
    open spec fn obeys_eq_spec() -> bool {
        true
    }

    open spec fn eq_spec(&self, other: &PathBuf) -> bool {
        self@ == other@
    }
}

/// Adds what one finished segment contributes.
fn push_segment(list: &mut Vec<Component>, segment: &Vec<char>, leads: bool)
    ensures
        parts_in(final(list)@) == parts_in(old(list)@) + segment_parts(segment@, leads),
{
    let ghost before = list@;
    if segment.len() == 0 {
        assert(parts_in(list@) =~= parts_in(before) + segment_parts(segment@, leads));
    } else if segment.len() == 1 && segment[0] == '.' {
        assert(segment@ =~= seq!['.']);
        if leads {
            list.push(Component::CurDir);
        }
        assert(parts_in(list@) =~= parts_in(before) + segment_parts(segment@, leads));
    } else if segment.len() == 2 && segment[0] == '.' && segment[1] == '.' {
        assert(segment@ =~= seq!['.', '.']);
        list.push(Component::ParentDir);
        assert(parts_in(list@) =~= parts_in(before) + segment_parts(segment@, leads));
    } else {
        let name: String = crate::text::text_of(segment, 0, segment.len());
        assert(name@ =~= segment@);
        proof {
            if segment@ == seq!['.'] {
                assert(segment@[0] == '.');
            }
            if segment@ == seq!['.', '.'] {
                assert(segment@[0] == '.' && segment@[1] == '.');
            }
        }
        list.push(Component::Normal(name));
        assert(parts_in(list@) =~= parts_in(before) + segment_parts(segment@, leads));
    }
}

/// The text of one component.
fn component_text(component: &Component) -> (r: String)
    ensures
        r@ == part_text(component@),
{
    match component {
        Component::RootDir => {
            let mut r: String = String::new();
            r.push('/');
            assert(r@ =~= seq!['/']);
            r
        },
        Component::CurDir => {
            let mut r: String = String::new();
            r.push('.');
            assert(r@ =~= seq!['.']);
            r
        },
        Component::ParentDir => {
            let mut r: String = String::new();
            r.push('.');
            r.push('.');
            assert(r@ =~= seq!['.', '.']);
            r
        },
        Component::Normal(name) => name.clone(),
    }
}

impl Component {
    /// Whether two components are the same.
    pub fn same_as(&self, other: &Component) -> (r: bool)
        ensures
            r == (self@ == other@),
    {
        match (self, other) {
            (Component::RootDir, Component::RootDir) => true,
            (Component::CurDir, Component::CurDir) => true,
            (Component::ParentDir, Component::ParentDir) => true,
            (Component::Normal(a), Component::Normal(b)) => same(a.as_str(), b.as_str()),
            _ => false,
        }
    }
}

impl PathBuf {
    /// The path that `text` writes.
    pub fn from(text: &str) -> (r: PathBuf)
        ensures
            r.text@ == text@,
            r@ == parts_of(text@),
    {
        PathBuf { text: text.to_owned() }
    }

    /// The text of the path.
    pub fn display(&self) -> (r: &str)
        ensures
            r@ == self.text@,
    {
        self.text.as_str()
    }

    /// The path's components, in order.
    pub fn components(&self) -> (r: Vec<Component>)
        ensures
            parts_in(r@) == self@,
    {
        let chars: Vec<char> = chars_of(self.text.as_str());
        let absolute: bool = chars.len() > 0 && chars[0] == '/';
        let mut list: Vec<Component> = Vec::new();
        if absolute {
            list.push(Component::RootDir);
        }
        let ghost front = if absolute {
            seq![Part::Root]
        } else {
            Seq::<Part>::empty()
        };
        assert(parts_in(list@) =~= front);
        let mut segment: Vec<char> = Vec::new();
        let mut first: bool = true;
        let mut i: usize = 0;
        proof {
            assert(chars@.take(0) =~= Seq::<char>::empty());
            let one = segments(chars@.take(0));
            assert(one.drop_last() =~= Seq::<Seq<char>>::empty());
        }
        while i < chars.len()
            invariant
                i <= chars@.len(),
                segments(chars@.take(i as int)).len() > 0,
                segment@ == segments(chars@.take(i as int)).last(),
                first == (segments(chars@.take(i as int)).len() == 1),
                parts_in(list@) == front + segments_parts(
                    segments(chars@.take(i as int)).drop_last(),
                    absolute,
                ),
            decreases chars@.len() - i,
        {
            let ghost seen = chars@.take(i as int);
            proof {
                assert(chars@.take(i + 1).drop_last() =~= seen);
            }
            let c: char = chars[i];
            if c == '/' {
                let ghost listed = parts_in(list@);
                push_segment(&mut list, &segment, first && !absolute);
                proof {
                    let now = segments(chars@.take(i + 1));
                    assert(now.drop_last() =~= segments(seen));
                    assert(parts_in(list@) =~= front + segments_parts(segments(seen), absolute));
                }
                segment = Vec::new();
                first = false;
            } else {
                segment.push(c);
                proof {
                    let now = segments(chars@.take(i + 1));
                    assert(now.drop_last() =~= segments(seen).drop_last());
                }
            }
            i = i + 1;
        }
        assert(chars@.take(chars@.len() as int) =~= chars@);
        push_segment(&mut list, &segment, first && !absolute);
        assert(parts_in(list@) =~= front + segments_parts(segments(chars@), absolute));
        assert(parts_in(list@) =~= self@);
        list
    }

    /// Whether two paths have the same components.
    pub fn same_as(&self, other: &PathBuf) -> (r: bool)
        ensures
            r == (self@ == other@),
    {
        let a: Vec<Component> = self.components();
        let b: Vec<Component> = other.components();
        a.len() == b.len() && starts(&a, &b)
    }

    /// Whether this path begins with all of `base`, component by component.
    pub fn starts_with(&self, base: &PathBuf) -> (r: bool)
        ensures
            r == under(self@, base@),
    {
        let a: Vec<Component> = self.components();
        let b: Vec<Component> = base.components();
        starts(&a, &b)
    }

    /// The last component, if it is a name.
    pub fn file_name(&self) -> (r: Option<String>)
        ensures
            match r {
                Some(name) => self@.len() > 0 && self@.last() == Part::Name(name@),
                None => self@.len() == 0 || !(self@.last() is Name),
            },
    {
        let mut list: Vec<Component> = self.components();
        let ghost all = list@;
        match list.pop() {
            Some(last) => {
                assert(self@.last() == all.last()@);
                match last {
                    Component::Normal(name) => Some(name),
                    _ => None,
                }
            },
            None => None,
        }
    }

    /// The path without its last component, as it is spelt up to there; `None` for a root and for
    /// the empty path.
    pub fn parent(&self) -> (r: Option<PathBuf>)
        ensures
            match r {
                Some(parent) => {
                    &&& self@.len() > 0
                    &&& !(self@.last() is Root)
                    &&& parent@ == self@.drop_last()
                    &&& parent_of(self.text@) == Some(parent.text@)
                },
                None => parent_of(self.text@) is None,
            },
    {
        let mut list: Vec<Component> = self.components();
        let ghost all = list@;
        match list.pop() {
            Some(last) => {
                assert(self@.last() == all.last()@);
                match last {
                    Component::RootDir => None,
                    _ => {
                        assert(parts_in(list@) =~= self@.drop_last());
                        Some(self.shortest_with(&list))
                    },
                }
            },
            None => None,
        }
    }

    /// The shortest beginning of this path that has these components, which are all of its own but
    /// the last.
    fn shortest_with(&self, list: &Vec<Component>) -> (r: PathBuf)
        requires
            self@.len() > 0,
            !(self@.last() is Root),
            parts_in(list@) == self@.drop_last(),
        ensures
            r@ == self@.drop_last(),
            r.text@ == shortest(self.text@, self@.drop_last(), 0),
    {
        let chars: Vec<char> = chars_of(self.text.as_str());
        let ghost wanted = self@.drop_last();
        proof {
            let found = lemma_parent_is_there(self.text@);
            lemma_shortest(self.text@, wanted, 0, found);
        }
        let mut n: usize = 0;
        while n < chars.len()
            invariant
                n <= chars@.len(),
                chars@ == self.text@,
                wanted == self@.drop_last(),
                parts_in(list@) == wanted,
                parts_of(shortest(self.text@, wanted, 0)) == wanted,
                shortest(self.text@, wanted, 0) == shortest(self.text@, wanted, n as int),
            decreases chars@.len() - n,
        {
            let head: PathBuf = PathBuf { text: text_of(&chars, 0, n) };
            assert(chars@.subrange(0, n as int) =~= self.text@.take(n as int));
            let own: Vec<Component> = head.components();
            if own.len() == list.len() && starts(&own, list) {
                return head;
            }
            n = n + 1;
        }
        assert(self.text@.take(n as int) =~= self.text@);
        self.clone()
    }

    /// `other` itself where it is absolute, else this path followed by it.
    pub fn join(&self, other: &str) -> (r: PathBuf)
        ensures
            r.text@ == join_text(self.text@, other@),
    {
        let tail: Vec<char> = chars_of(other);
        if tail.len() > 0 && tail[0] == '/' {
            return PathBuf { text: other.to_owned() };
        }
        let head: Vec<char> = chars_of(self.text.as_str());
        let mut text: String = self.text.clone();
        if head.len() > 0 && head[head.len() - 1] != '/' {
            text.push('/');
        }
        text.append(other);
        PathBuf { text }
    }

    /// What of this path follows `base`.
    pub fn strip_prefix(&self, base: &PathBuf) -> (r: Option<PathBuf>)
        ensures
            match r {
                Some(rest) => {
                    &&& under(self@, base@)
                    &&& rest.text@ == render(self@.skip(base@.len() as int))
                },
                None => !under(self@, base@),
            },
    {
        let mut a: Vec<Component> = self.components();
        let b: Vec<Component> = base.components();
        if !starts(&a, &b) {
            return None;
        }
        let ghost all = a@;
        let rest: Vec<Component> = a.split_off(b.len());
        assert(parts_in(rest@) =~= self@.skip(base@.len() as int)) by {
            assert(base@.len() == b@.len());
        }
        Some(assemble(&rest))
    }
}

/// The text of `a` followed by `b`, or of `b` alone where it is absolute.
pub open spec fn join_text(a: Seq<char>, b: Seq<char>) -> Seq<char> {
    if rooted(b) {
        b
    } else if a.len() > 0 && a.last() != '/' {
        a.push('/') + b
    } else {
        a + b
    }
}

/// Whether `a` begins with all of `b`.
fn starts(a: &Vec<Component>, b: &Vec<Component>) -> (r: bool)
    ensures
        r == under(parts_in(a@), parts_in(b@)),
        a@.len() == b@.len() ==> r == (parts_in(a@) == parts_in(b@)),
{
    if b.len() > a.len() {
        return false;
    }
    let mut i: usize = 0;
    while i < b.len()
        invariant
            i <= b@.len() <= a@.len(),
            forall|j: int| 0 <= j < i ==> parts_in(a@)[j] == parts_in(b@)[j],
        decreases b@.len() - i,
    {
        if !a[i].same_as(&b[i]) {
            proof {
                assert(parts_in(a@).take(b@.len() as int)[i as int] != parts_in(b@)[i as int]);
            }
            return false;
        }
        i = i + 1;
    }
    assert(parts_in(a@).take(b@.len() as int) =~= parts_in(b@));
    assert(a@.len() == b@.len() ==> parts_in(a@) =~= parts_in(b@));
    true
}

/// The path made of `list`.
fn assemble(list: &Vec<Component>) -> (r: PathBuf)
    ensures
        r.text@ == render(parts_in(list@)),
{
    let mut text: String = String::new();
    let mut i: usize = 0;
    while i < list.len()
        invariant
            i <= list@.len(),
            text@ == render(parts_in(list@.take(i as int))),
        decreases list@.len() - i,
    {
        let chars: Vec<char> = chars_of(text.as_str());
        if chars.len() > 0 && chars[chars.len() - 1] != '/' {
            text.push('/');
        }
        let piece: String = component_text(&list[i]);
        text.append(piece.as_str());
        i = i + 1;
        proof {
            let now = parts_in(list@.take(i as int));
            assert(now.drop_last() =~= parts_in(list@.take(i - 1)));
            assert(now.last() == list@[i - 1]@);
        }
    }
    assert(list@.take(list@.len() as int) =~= list@);
    PathBuf { text }
}

/// Collapses `.` and `..` without touching the filesystem.
///
/// A `..` with nothing to resolve against stays: dropping it would turn a relative escape into
/// a path that looks innocent.
pub fn normalise(path: &PathBuf) -> (r: PathBuf)
    ensures
        r@ == normal_parts(path@),
        r.text@ == render(normal_parts(path@)),
{
    let list: Vec<Component> = path.components();
    let mut out: Vec<Component> = Vec::new();
    let mut i: usize = 0;
    assert(parts_in(out@) =~= normal_parts(parts_in(list@.take(0))));
    while i < list.len()
        invariant
            i <= list@.len(),
            parts_in(out@) == normal_parts(parts_in(list@.take(i as int))),
        decreases list@.len() - i,
    {
        let ghost before = out@;
        proof {
            let now = parts_in(list@.take(i + 1));
            assert(now.drop_last() =~= parts_in(list@.take(i as int)));
            assert(now.last() == list@[i as int]@);
        }
        match &list[i] {
            Component::CurDir => {},
            Component::ParentDir => {
                let resolves: bool = out.len() > 0 && matches!(out[out.len() - 1], Component::Normal(_));
                assert(parts_in(before).len() > 0 ==> parts_in(before).last()
                    == before.last()@);
                if resolves {
                    out.pop();
                    assert(parts_in(out@) =~= parts_in(before).drop_last());
                } else {
                    out.push(Component::ParentDir);
                    assert(parts_in(out@) =~= parts_in(before).push(Part::Parent));
                }
            },
            Component::RootDir => {
                out.push(Component::RootDir);
                assert(parts_in(out@) =~= parts_in(before).push(Part::Root));
            },
            Component::Normal(name) => {
                out.push(Component::Normal(name.clone()));
                assert(parts_in(out@) =~= parts_in(before).push(Part::Name(name@)));
            },
        }
        i = i + 1;
    }
    assert(list@.take(list@.len() as int) =~= list@);
    proof {
        lemma_parts_placed(path.text@);
        lemma_normal_placed(path@);
        lemma_render_parts(normal_parts(path@));
    }
    assemble(&out)
}

} // verus!
