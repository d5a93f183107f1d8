//! Paths, and the directory that holds the device's files.
//!
//! Slashes separate the components of a path. Where a path leads is told from its text alone, not
//! from links on the disk.
use vstd::prelude::*;

use crate::text::{chars_of, same_text};

verus! {

/// The directory that holds the device's files.
pub const FILES_DIR: &'static str = "/storage/emulated/0/Android/data/com.pdf_link_demo.app/files";

/// The place of the last slash, or -1.
pub open spec fn last_slash(path: Seq<char>) -> int
    decreases path.len(),
{
    if path.len() == 0 {
        -1
    } else if path.last() == '/' {
        path.len() - 1
    } else {
        last_slash(path.drop_last())
    }
}

/// The last component of a path with slashes: slashes and single dots at the end count for
/// nothing, and a path that ends in two dots has no last component.
pub open spec fn final_component(path: Seq<char>) -> Option<Seq<char>>
    decreases path.len(),
{
    let name = path.skip(last_slash(path) + 1);
    if path.len() == 0 {
        None
    } else if path.last() == '/' {
        final_component(path.drop_last())
    } else if name == "."@ {
        final_component(path.drop_last())
    } else if name == ".."@ {
        None
    } else {
        Some(name)
    }
}

/// The last component of a path, or nothing at all where it has none.
pub open spec fn shown_name(path: Seq<char>) -> Seq<char> {
    match final_component(path) {
        Some(name) => name,
        None => seq![],
    }
}

/// The name of a file for the screen: the last component of its path, empty where it has none.
pub fn file_name_of(path: &str) -> (r: String)
    ensures
        r@ == shown_name(path@),
{
    let chars = chars_of(path);
    let mut end: usize = chars.len();
    assert(path@.take(end as int) =~= path@);
    while end > 0 && (chars[end - 1] == '/' || chars[end - 1] == '.' && (end == 1 || chars[end - 2]
        == '/'))
        invariant
            chars@ == path@,
            end <= chars@.len(),
            final_component(path@) == final_component(path@.take(end as int)),
        decreases end,
    {
        proof {
            lemma_component_ends(path@.take(end as int));
            assert(path@.take(end as int).drop_last() =~= path@.take(end - 1));
        }
        end = end - 1;
    }
    let ghost rest = path@.take(end as int);
    let mut start: usize = end;
    while start > 0 && chars[start - 1] != '/'
        invariant
            chars@ == path@,
            start <= end <= chars@.len(),
            forall|i: int| start <= i < end ==> chars@[i] != '/',
        decreases start,
    {
        start = start - 1;
    }
    proof {
        if start > 0 {
            lemma_last_slash(rest, start - 1);
        } else {
            lemma_no_slash(rest);
        }
        reveal_strlit(".");
        reveal_strlit("..");
    }
    let ghost name = rest.skip(start as int);
    let mut out = String::new();
    if end - start == 2 && chars[start] == '.' && chars[start + 1] == '.' {
        assert(name =~= ".."@);
        assert(out@ =~= shown_name(path@));
        return out;
    }
    assert(end > 0 ==> name != "."@) by {
        if end > 0 && name == "."@ {
            assert(name.len() == 1 && name[0] == '.');
            assert(name[0] == chars@[start as int]);
        }
    }
    assert(name != ".."@) by {
        if name == ".."@ {
            assert(name.len() == 2 && name[0] == '.' && name[1] == '.');
            assert(name[0] == chars@[start as int] && name[1] == chars@[start + 1]);
        }
    }
    for k in start..end
        invariant
            chars@ == path@,
            start <= end <= chars@.len(),
            out@ == path@.subrange(start as int, k as int),
    {
        out.push(chars[k]);
        assert(out@ =~= path@.subrange(start as int, k + 1));
    }
    assert(out@ =~= name);
    out
}

/// Whether a name can stand for a file right inside a directory: it is not empty, holds no slash,
/// and is neither a single dot nor two.
pub open spec fn is_plain_name(name: Seq<char>) -> bool {
    &&& name.len() > 0
    &&& !name.contains('/')
    &&& name != "."@
    &&& name != ".."@
}

/// The path of a file called `name` right inside the directory of the device's files.
pub open spec fn path_of(name: Seq<char>) -> Seq<char> {
    FILES_DIR@ + "/"@ + name
}

/// Whether a path leads to something right inside a directory: up to its last slash it is the
/// directory, and what follows is a plain name.
pub open spec fn lies_directly_in(path: Seq<char>, dir: Seq<char>) -> bool {
    let cut = last_slash(path);
    &&& 0 <= cut
    &&& path.take(cut) == dir
    &&& is_plain_name(path.skip(cut + 1))
}

/// Where one component leads from a place, which is the list of the directories down to it from the
/// root: nowhere if it is empty or a single dot, up if it is two dots, though not above the root,
/// and else down.
pub open spec fn step_into(place: Seq<Seq<char>>, component: Seq<char>) -> Seq<Seq<char>> {
    if component.len() == 0 || component == "."@ {
        place
    } else if component == ".."@ {
        if place.len() > 0 {
            place.drop_last()
        } else {
            place
        }
    } else {
        place.push(component)
    }
}

/// Where a path leads from a place, component by component.
pub open spec fn walk(place: Seq<Seq<char>>, path: Seq<char>) -> Seq<Seq<char>>
    decreases path.len(),
{
    let cut = last_slash(path);
    if cut < 0 {
        step_into(place, path)
    } else {
        proof {
            lemma_last_slash_in_range(path);
        }
        step_into(walk(place, path.take(cut)), path.skip(cut + 1))
    }
}

/// The place that a path leads to from the root.
pub open spec fn place_of(path: Seq<char>) -> Seq<Seq<char>> {
    walk(seq![], path)
}

/// Whether a path starts at the root.
pub open spec fn is_absolute(path: Seq<char>) -> bool {
    path.len() > 0 && path[0] == '/'
}

/// Whether a path starts at the root and leads to a directory or to something below it.
pub open spec fn lies_inside(path: Seq<char>, dir: Seq<char>) -> bool {
    &&& is_absolute(path)
    &&& place_of(dir).is_prefix_of(place_of(path))
}

/// The path of `name` taken from the directory `dir`: an absolute one stands for itself.
pub open spec fn joined(dir: Seq<char>, name: Seq<char>) -> Seq<char> {
    if is_absolute(name) {
        name
    } else {
        dir + "/"@ + name
    }
}

/// Whether a name, taken from the directory of the device's files, leads to that directory or to
/// something below it.
pub open spec fn stays_inside(name: Seq<char>) -> bool {
    let home = place_of(FILES_DIR@);
    home.is_prefix_of(
        if is_absolute(name) {
            place_of(name)
        } else {
            walk(home, name)
        },
    )
}

/// A list of texts, by their content.
pub open spec fn contents(texts: Seq<String>) -> Seq<Seq<char>> {
    texts.map_values(|s: String| s@)
}

fn step(place: &mut Vec<String>, component: String)
    ensures
        contents(final(place)@) == step_into(contents(old(place)@), component@),
{
    if component.as_str().is_empty() || same_text(component.as_str(), ".") {
        return;
    }
    if same_text(component.as_str(), "..") {
        let _ = place.pop();
    } else {
        place.push(component);
    }
    assert(contents(place@) =~= step_into(contents(old(place)@), component@));
}

/// The walk up to the component that starts at `start`.
spec fn walk_before(place: Seq<Seq<char>>, path: Seq<char>, start: int) -> Seq<Seq<char>> {
    if start == 0 {
        place
    } else {
        walk(place, path.take(start - 1))
    }
}

proof fn lemma_walk_last(place: Seq<Seq<char>>, path: Seq<char>, start: int)
    requires
        0 <= start <= path.len(),
        start > 0 ==> path[start - 1] == '/',
        forall|i: int| start <= i < path.len() ==> path[i] != '/',
    ensures
        walk(place, path) == step_into(walk_before(place, path, start), path.skip(start)),
{
    if start > 0 {
        lemma_last_slash(path, start - 1);
    } else {
        lemma_no_slash(path);
        assert(path.skip(0) =~= path);
    }
}

/// Walks along a path from a place.
fn walk_along(place: Vec<String>, path: &str) -> (r: Vec<String>)
    ensures
        contents(r@) == walk(contents(place@), path@),
{
    let ghost from = contents(place@);
    let chars = chars_of(path);
    let mut place = place;
    let mut component = String::new();
    let mut start: usize = 0;
    for k in 0..chars.len()
        invariant
            chars@ == path@,
            start <= k,
            start > 0 ==> path@[start - 1] == '/',
            forall|i: int| start <= i < k ==> path@[i] != '/',
            component@ == path@.subrange(start as int, k as int),
            contents(place@) == walk_before(from, path@, start as int),
    {
        let c = chars[k];
        if c == '/' {
            proof {
                let head = path@.take(k as int);
                lemma_walk_last(from, head, start as int);
                assert(head.skip(start as int) =~= component@);
                if start > 0 {
                    assert(head.take(start - 1) =~= path@.take(start - 1));
                }
            }
            step(&mut place, component);
            component = String::new();
            start = k + 1;
            assert(component@ =~= path@.subrange(start as int, k + 1));
        } else {
            component.push(c);
            assert(component@ =~= path@.subrange(start as int, k + 1));
        }
    }
    proof {
        lemma_walk_last(from, path@, start as int);
        assert(path@.skip(start as int) =~= component@);
    }
    step(&mut place, component);
    place
}

fn starts_with(place: &Vec<String>, start: &Vec<String>) -> (r: bool)
    ensures
        r == contents(start@).is_prefix_of(contents(place@)),
{
    if start.len() > place.len() {
        return false;
    }
    for k in 0..start.len()
        invariant
            start@.len() <= place@.len(),
            forall|i: int| 0 <= i < k ==> (#[trigger] start@[i])@ == place@[i]@,
    {
        if start[k] != place[k] {
            assert(contents(start@)[k as int] != contents(place@)[k as int]);
            return false;
        }
    }
    assert(contents(start@) =~= contents(place@).take(start@.len() as int));
    true
}

fn starts_at_root(path: &str) -> (r: bool)
    ensures
        r == is_absolute(path@),
{
    let chars = chars_of(path);
    chars.len() > 0 && chars[0] == '/'
}

fn no_texts() -> (r: Vec<String>)
    ensures
        contents(r@) == Seq::<Seq<char>>::empty(),
{
    let r: Vec<String> = Vec::new();
    assert(contents(r@) =~= Seq::<Seq<char>>::empty());
    r
}

/// Where a file called `name` goes: its name taken from the directory of the device's files. A name
/// that leads out of the directory has no place.
pub fn target_path(name: &str) -> (r: Option<String>)
    ensures
        r is Some <==> stays_inside(name@),
        r matches Some(path) ==> path@ == joined(FILES_DIR@, name@),
{
    let home = walk_along(no_texts(), FILES_DIR);
    let start: Vec<String> = if starts_at_root(name) {
        no_texts()
    } else {
        walk_along(no_texts(), FILES_DIR)
    };
    let place = walk_along(start, name);
    if !starts_with(&place, &home) {
        return None;
    }
    if starts_at_root(name) {
        Some(name.to_string())
    } else {
        let mut path = FILES_DIR.to_string();
        path.append("/");
        path.append(name);
        Some(path)
    }
}

fn has_slash(name: &str) -> (r: bool)
    ensures
        r == name@.contains('/'),
{
    let mut found = false;
    for c in it: name.chars()
        invariant
            it.seq() == name@,
            found <==> exists|i: int| 0 <= i < it.index() && name@[i] == '/',
    {
        if c == '/' {
            found = true;
        }
    }
    found
}

/// The path of a file called `name` right inside the directory of the device's files; only a plain
/// name has one.
pub fn file_path(name: &str) -> (r: Option<String>)
    ensures
        r is Some <==> is_plain_name(name@),
        r matches Some(path) ==> path@ == path_of(name@),
{
    if name.is_empty() || has_slash(name) || same_text(name, ".") || same_text(name, "..") {
        return None;
    }
    let mut path = FILES_DIR.to_string();
    path.append("/");
    path.append(name);
    Some(path)
}

proof fn lemma_last_slash(path: Seq<char>, cut: int)
    requires
        0 <= cut < path.len(),
        path[cut] == '/',
        forall|i: int| cut < i < path.len() ==> path[i] != '/',
    ensures
        last_slash(path) == cut,
    decreases path.len(),
{
    if path.last() != '/' {
        lemma_last_slash(path.drop_last(), cut);
    }
}

proof fn lemma_no_slash(path: Seq<char>)
    requires
        !path.contains('/'),
    ensures
        last_slash(path) == -1,
    decreases path.len(),
{
    if path.len() > 0 {
        assert(path.contains(path.last()));
        assert forall|c: char| path.drop_last().contains(c) implies path.contains(c) by {
            let i = choose|i: int| 0 <= i < path.drop_last().len() && path.drop_last()[i] == c;
            assert(path[i] == c);
        }
        lemma_no_slash(path.drop_last());
    }
}

/// A slash at the end, and a single dot that is a component of its own, count for nothing.
proof fn lemma_component_ends(path: Seq<char>)
    requires
        path.len() > 0,
        path.last() == '/' || path.last() == '.' && (path.len() == 1 || path[path.len() - 2] == '/'),
    ensures
        final_component(path) == final_component(path.drop_last()),
{
    reveal_strlit(".");
    if path.last() == '.' {
        if path.len() == 1 {
            assert(!path.contains('/'));
            lemma_no_slash(path);
        } else {
            lemma_last_slash(path, path.len() - 2);
        }
        assert(path.skip(last_slash(path) + 1) =~= "."@);
    }
}

/// The name shown for a file of a directory is its name there.
pub proof fn law_file_is_shown_by_its_name(dir: Seq<char>, name: Seq<char>)
    requires
        is_plain_name(name),
    ensures
        shown_name(dir + "/"@ + name) == name,
{
    reveal_strlit("/");
    let path = dir + "/"@ + name;
    assert forall|i: int| dir.len() < i < path.len() implies path[i] != '/' by {
        assert(path[i] == name[i - dir.len() - 1]);
    }
    lemma_last_slash(path, dir.len() as int);
    assert(path.skip(dir.len() as int + 1) =~= name);
    assert(path.last() == name.last());
}

/// The last slash is a slash, and none follows it.
pub proof fn lemma_last_slash_in_range(path: Seq<char>)
    ensures
        -1 <= last_slash(path) < path.len(),
        last_slash(path) >= 0 ==> path[last_slash(path)] == '/',
        forall|i: int| last_slash(path) < i < path.len() ==> path[i] != '/',
    decreases path.len(),
{
    if path.len() > 0 && path.last() != '/' {
        lemma_last_slash_in_range(path.drop_last());
        assert forall|i: int| last_slash(path) < i < path.len() implies path[i] != '/' by {
            if i < path.len() - 1 {
                assert(path[i] == path.drop_last()[i]);
            }
        }
    }
}

/// A path through a directory leads where the rest of it leads from there.
pub proof fn law_walks_join(place: Seq<Seq<char>>, dir: Seq<char>, name: Seq<char>)
    ensures
        walk(place, dir + "/"@ + name) == walk(walk(place, dir), name),
    decreases name.len(),
{
    reveal_strlit("/");
    let path = dir + "/"@ + name;
    let cut = last_slash(name);
    let k = dir.len() as int;
    lemma_last_slash_in_range(name);
    lemma_walk_last(walk(place, dir), name, cut + 1);
    assert forall|i: int| k + 1 + cut < i < path.len() implies path[i] != '/' by {
        assert(path[i] == name[i - k - 1]);
    }
    assert(path[k + 1 + cut] == '/');
    lemma_walk_last(place, path, k + cut + 2);
    assert(path.skip(k + cut + 2) =~= name.skip(cut + 1));
    if cut >= 0 {
        law_walks_join(place, dir, name.take(cut));
        assert(path.take(k + 1 + cut) =~= dir + "/"@ + name.take(cut));
    } else {
        assert(path.take(k) =~= dir);
    }
}

/// A name stays inside the directory of the device's files exactly if the path of it taken from the
/// directory lies inside.
pub proof fn law_targets_lie_in_the_directory(name: Seq<char>)
    ensures
        stays_inside(name) <==> lies_inside(joined(FILES_DIR@, name), FILES_DIR@),
{
    reveal_strlit("/storage/emulated/0/Android/data/com.pdf_link_demo.app/files");
    law_walks_join(seq![], FILES_DIR@, name);
}

/// A plain name stays inside: its place is right inside the directory, and its last component is
/// the name.
pub proof fn law_plain_names_stay_inside(name: Seq<char>)
    requires
        is_plain_name(name),
    ensures
        stays_inside(name),
        joined(FILES_DIR@, name) == path_of(name),
        place_of(path_of(name)) == place_of(FILES_DIR@).push(name),
        lies_directly_in(path_of(name), FILES_DIR@),
        lies_inside(path_of(name), FILES_DIR@),
        shown_name(path_of(name)) == name,
{
    reveal_strlit("/");
    let path = path_of(name);
    let cut = FILES_DIR@.len() as int;
    assert(!is_absolute(name)) by {
        if is_absolute(name) {
            assert(name.contains(name[0]));
        }
    }
    assert forall|i: int| cut < i < path.len() implies path[i] != '/' by {
        assert(path[i] == name[i - cut - 1]);
    }
    lemma_last_slash(path, cut);
    assert(path.take(cut) =~= FILES_DIR@);
    assert(path.skip(cut + 1) =~= name);
    lemma_no_slash(name);
    law_targets_lie_in_the_directory(name);
    law_walks_join(seq![], FILES_DIR@, name);
    let home = place_of(FILES_DIR@);
    assert(home.is_prefix_of(home.push(name)));
    law_file_is_shown_by_its_name(FILES_DIR@, name);
}

/// A component leads nowhere if it is empty or a single dot, up if it is two dots, and else down.
pub proof fn law_components_lead(place: Seq<Seq<char>>, component: Seq<char>)
    requires
        !component.contains('/'),
    ensures
        component == Seq::<char>::empty() || component == seq!['.'] ==> walk(place, component)
            == place,
        component == seq!['.', '.'] && place.len() > 0 ==> walk(place, component)
            == place.drop_last(),
        component == seq!['.', '.'] && place.len() == 0 ==> walk(place, component) == place,
        component.len() > 0 && component != seq!['.'] && component != seq!['.', '.'] ==> walk(
            place,
            component,
        ) == place.push(component),
{
    reveal_strlit(".");
    reveal_strlit("..");
    assert("."@ =~= seq!['.']);
    assert(".."@ =~= seq!['.', '.']);
    lemma_no_slash(component);
}

/// One more directory down.
proof fn lemma_down(place: Seq<Seq<char>>, dir: Seq<char>, name: Seq<char>, path: Seq<char>)
    requires
        is_plain_name(name),
        path == dir + "/"@ + name,
    ensures
        walk(place, path) == walk(place, dir).push(name),
{
    law_walks_join(place, dir, name);
    lemma_no_slash(name);
}

/// The directory of the device's files lies seven directories down from the root.
proof fn lemma_home()
    ensures
        place_of(FILES_DIR@) == seq![
            "storage"@,
            "emulated"@,
            "0"@,
            "Android"@,
            "data"@,
            "com.pdf_link_demo.app"@,
            "files"@,
        ],
{
    reveal_strlit(".");
    reveal_strlit("..");
    reveal_strlit("/");
    reveal_strlit("storage");
    reveal_strlit("emulated");
    reveal_strlit("0");
    reveal_strlit("Android");
    reveal_strlit("data");
    reveal_strlit("com.pdf_link_demo.app");
    reveal_strlit("files");
    reveal_strlit("/storage/emulated/0/Android/data/com.pdf_link_demo.app/files");
    let root = Seq::<Seq<char>>::empty();
    let nothing = Seq::<char>::empty();
    let a = nothing + "/"@ + "storage"@;
    let b = a + "/"@ + "emulated"@;
    let c = b + "/"@ + "0"@;
    let d = c + "/"@ + "Android"@;
    let e = d + "/"@ + "data"@;
    let f = e + "/"@ + "com.pdf_link_demo.app"@;
    let g = f + "/"@ + "files"@;
    assert(g =~= FILES_DIR@);
    assert("0"@[0] != "."@[0]);
    lemma_no_slash(nothing);
    assert(walk(root, nothing) == root);
    lemma_down(root, nothing, "storage"@, a);
    lemma_down(root, a, "emulated"@, b);
    lemma_down(root, b, "0"@, c);
    lemma_down(root, c, "Android"@, d);
    lemma_down(root, d, "data"@, e);
    lemma_down(root, e, "com.pdf_link_demo.app"@, f);
    lemma_down(root, f, "files"@, g);
    assert(seq![] =~= root);
    assert(place_of(FILES_DIR@) =~= seq![
        "storage"@,
        "emulated"@,
        "0"@,
        "Android"@,
        "data"@,
        "com.pdf_link_demo.app"@,
        "files"@,
    ]);
}

/// A name stays inside exactly if following it, from the root where it starts with a slash and from
/// the directory of the device's files where it does not, ends seven directories down or deeper and
/// passes through that directory.
pub proof fn law_what_stays_inside(name: Seq<char>)
    ensures
        ({
            let home = seq![
                "storage"@,
                "emulated"@,
                "0"@,
                "Android"@,
                "data"@,
                "com.pdf_link_demo.app"@,
                "files"@,
            ];
            let root = Seq::<Seq<char>>::empty();
            let place = if name.len() > 0 && name[0] == '/' {
                walk(root, name)
            } else {
                walk(home, name)
            };
            stays_inside(name) <==> place.len() >= 7 && place.take(7) == home
        }),
{
    lemma_home();
    let home = place_of(FILES_DIR@);
    let root = Seq::<Seq<char>>::empty();
    assert(seq![] =~= root);
    let place = if name.len() > 0 && name[0] == '/' {
        walk(root, name)
    } else {
        walk(home, name)
    };
    assert(home.is_prefix_of(place) ==> place.take(7) =~= home);
    assert(place.len() >= 7 && place.take(7) == home ==> home.is_prefix_of(place));
}

/// The name taken from a directory: it ends in the name, and where the name does not start with a
/// slash, the directory and one slash come before it; where it does, nothing.
pub proof fn law_joined_path(dir: Seq<char>, name: Seq<char>)
    ensures
        ({
            let path = joined(dir, name);
            let n = path.len() - name.len();
            &&& n >= 0 && path.skip(n) == name
            &&& name.len() > 0 && name[0] == '/' ==> n == 0
            &&& name.len() == 0 || name[0] != '/' ==> n == dir.len() + 1 && path.take(
                dir.len() as int,
            ) == dir && path[dir.len() as int] == '/'
        }),
{
    reveal_strlit("/");
    let path = joined(dir, name);
    let n = path.len() - name.len();
    assert(path.skip(n) =~= name);
    if n > 0 {
        assert(path.take(dir.len() as int) =~= dir);
    }
}

proof fn lemma_places_hold_plain_names(place: Seq<Seq<char>>, path: Seq<char>)
    requires
        forall|i: int| 0 <= i < place.len() ==> is_plain_name(#[trigger] place[i]),
    ensures
        forall|i: int|
            0 <= i < walk(place, path).len() ==> is_plain_name(#[trigger] walk(place, path)[i]),
    decreases path.len(),
{
    lemma_last_slash_in_range(path);
    let cut = last_slash(path);
    let component = path.skip(cut + 1);
    if cut >= 0 {
        lemma_places_hold_plain_names(place, path.take(cut));
    } else {
        assert(component =~= path);
    }
    if component.contains('/') {
        let i = choose|i: int| 0 <= i < component.len() && component[i] == '/';
        assert(path[cut + 1 + i] == '/');
    }
    let before = if cut >= 0 {
        walk(place, path.take(cut))
    } else {
        place
    };
    assert(walk(place, path) == step_into(before, component));
    assert forall|i: int| 0 <= i < walk(place, path).len() implies is_plain_name(
        #[trigger] walk(place, path)[i],
    ) by {
        if i < before.len() {
            assert(walk(place, path)[i] == before[i]);
        }
    }
}

/// A name is plain exactly if it leads one directory down, to what bears that very name.
pub proof fn law_plain_names_lead_one_down(name: Seq<char>)
    ensures
        is_plain_name(name) <==> walk(Seq::empty(), name) == seq![name],
{
    let root = Seq::<Seq<char>>::empty();
    if is_plain_name(name) {
        lemma_no_slash(name);
        assert(root.push(name) =~= seq![name]);
    }
    if walk(root, name) == seq![name] {
        lemma_places_hold_plain_names(root, name);
        assert(walk(root, name)[0] == name);
    }
}

/// The path of a name is the directory, a slash and the name.
pub proof fn law_path_of_a_name(name: Seq<char>)
    ensures
        path_of(name) == "/storage/emulated/0/Android/data/com.pdf_link_demo.app/files/"@ + name,
{
    reveal_strlit("/");
    reveal_strlit("/storage/emulated/0/Android/data/com.pdf_link_demo.app/files");
    reveal_strlit("/storage/emulated/0/Android/data/com.pdf_link_demo.app/files/");
    assert(FILES_DIR@ + "/"@
        =~= "/storage/emulated/0/Android/data/com.pdf_link_demo.app/files/"@);
}

/// The path of a plain name is the directory, a slash and the name, and no other name has one.
pub proof fn law_file_path(name: &str, r: Option<String>)
    requires
        call_ensures(file_path, (name,), r),
    ensures
        r is Some <==> walk(Seq::empty(), name@) == seq![name@],
        r matches Some(path) ==> path@
            == "/storage/emulated/0/Android/data/com.pdf_link_demo.app/files/"@ + name@,
{
    law_plain_names_lead_one_down(name@);
    law_path_of_a_name(name@);
}

/// Where a file goes: a name that does not start with a slash goes below the directory, if it stays
/// inside, and one that does stands for itself.
pub proof fn law_target_path(name: &str, r: Option<String>)
    requires
        call_ensures(target_path, (name,), r),
    ensures
        r is Some <==> stays_inside(name@),
        r matches Some(path) ==> path@ == if name@.len() > 0 && name@[0] == '/' {
            name@
        } else {
            "/storage/emulated/0/Android/data/com.pdf_link_demo.app/files/"@ + name@
        },
{
    law_path_of_a_name(name@);
}

proof fn lemma_going_down(place: Seq<Seq<char>>, path: Seq<char>)
    requires
        forall|i: int| 0 <= i < path.len() - 1 ==> !(path[i] == '.' && #[trigger] path[i + 1] == '.'),
    ensures
        place.is_prefix_of(walk(place, path)),
    decreases path.len(),
{
    reveal_strlit("..");
    lemma_last_slash_in_range(path);
    let cut = last_slash(path);
    let component = path.skip(cut + 1);
    if component == ".."@ {
        assert(component[0] == '.' && component[1] == '.');
        assert(path[cut + 1] == component[0] && path[cut + 2] == component[1]);
        assert(path[cut + 1 + 1] == '.');
    }
    if cut >= 0 {
        let head = path.take(cut);
        assert forall|i: int| 0 <= i < head.len() - 1 implies !(head[i] == '.' && #[trigger] head[i
            + 1] == '.') by {
            assert(path[i + 1] == head[i + 1]);
        }
        lemma_going_down(place, head);
    } else {
        assert(component =~= path);
    }
}

/// A name that does not start with a slash and in which no two dots follow each other stays inside.
pub proof fn law_names_that_go_down_stay_inside(name: Seq<char>)
    requires
        name.len() == 0 || name[0] != '/',
        forall|i: int| 0 <= i < name.len() - 1 ==> !(name[i] == '.' && #[trigger] name[i + 1] == '.'),
    ensures
        stays_inside(name),
{
    lemma_going_down(place_of(FILES_DIR@), name);
}

/// The last component of a path: slashes and single dots at the end count for nothing; two dots, or
/// nothing at all, have no name; and any other last component is the name.
pub proof fn law_shown_names(path: Seq<char>, name: Seq<char>)
    ensures
        shown_name(path + "/"@) == shown_name(path),
        shown_name(path + "/."@) == shown_name(path),
        shown_name(path + "/.."@) == Seq::<char>::empty(),
        shown_name(Seq::empty()) == Seq::<char>::empty(),
        shown_name("."@) == Seq::<char>::empty(),
        shown_name(".."@) == Seq::<char>::empty(),
        is_plain_name(name) ==> shown_name(name) == name && shown_name(path + "/"@ + name) == name,
{
    reveal_strlit("/");
    reveal_strlit("/.");
    reveal_strlit("/..");
    reveal_strlit(".");
    reveal_strlit("..");
    reveal_with_fuel(final_component, 3);
    let n = path.len() as int;
    let slash = path + "/"@;
    assert(slash.drop_last() =~= path);
    let dot = path + "/."@;
    lemma_last_slash(dot, n);
    assert(dot.skip(n + 1) =~= "."@);
    assert(dot.drop_last() =~= slash);
    let up = path + "/.."@;
    lemma_last_slash(up, n);
    assert(up.skip(n + 1) =~= ".."@);
    assert(up.last() == '.');
    lemma_no_slash("."@);
    lemma_no_slash(".."@);
    assert("."@.skip(0) =~= "."@);
    assert(".."@.skip(0) =~= ".."@);
    assert("."@.drop_last() =~= Seq::<char>::empty());
    if is_plain_name(name) {
        law_file_is_shown_by_its_name(path, name);
        lemma_no_slash(name);
        assert(name.skip(0) =~= name);
        assert(name.contains(name.last()));
    }
}

/// The name of a file for the screen does not depend on slashes and single dots at the end of its
/// path, and for a path in a directory it is the name there.
pub proof fn law_names_for_the_screen(path: &str, dir: Seq<char>, name: Seq<char>, r: String)
    requires
        call_ensures(file_name_of, (path,), r),
        is_plain_name(name),
        path@ == name || path@ == dir + "/"@ + name || path@ == dir + "/"@ + name + "/"@ || path@
            == dir + "/"@ + name + "/."@,
    ensures
        r@ == name,
{
    law_shown_names(dir, name);
    law_shown_names(dir + "/"@ + name, name);
}

} // verus!
