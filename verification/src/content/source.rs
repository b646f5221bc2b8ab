//! Which files belong to a site, and which filesystem changes call for a rebuild.
use vstd::prelude::*;

use crate::config::file_name_spec;
use crate::paths::{components, is_normal, is_prefix, path_components};
use crate::text::{chars_of, contains_exec, contains_seq, last_index, last_index_of, push_str, str_eq, vec_eq, views};

verus! {

/// A component that names something and starts with `.`.
pub open spec fn hidden_name(c: Seq<char>) -> bool {
    is_normal(c) && c.len() > 0 && c[0] == '.'
}

/// Whether any named component of `rel` starts with `.` (e.g. `.git`, `.cursor`).
pub open spec fn has_hidden_component(rel: Seq<char>) -> bool {
    exists|i: int| 0 <= i < components(rel).len() && hidden_name(#[trigger] components(rel)[i])
}

fn hidden_name_exec(c: &Vec<char>) -> (r: bool)
    ensures
        r == hidden_name(c@),
{
    let root = c.len() == 1 && c[0] == '/';
    let dot = c.len() == 1 && c[0] == '.';
    let dotdot = c.len() == 2 && c[0] == '.' && c[1] == '.';
    proof {
        if c@ == seq!['/'] || c@ == seq!['.'] {
            assert(c@.len() == 1 && c@[0] == c@[0]);
        }
        if c@ == seq!['.', '.'] {
            assert(c@.len() == 2 && c@[0] == '.' && c@[1] == '.');
        }
        if root {
            assert(c@ =~= seq!['/']);
        }
        if dot {
            assert(c@ =~= seq!['.']);
        }
        if dotdot {
            assert(c@ =~= seq!['.', '.']);
        }
    }
    !root && !dot && !dotdot && c.len() > 0 && c[0] == '.'
}

/// Whether any named segment of a relative path starts with `.`, so that symlinked
/// trees cannot pull tool or VCS folders into the site.
pub fn relative_path_has_hidden_component(relative: &str) -> (r: bool)
    ensures
        r == has_hidden_component(relative@),
{
    let comps = path_components(relative);
    let mut i: usize = 0;
    while i < comps.len()
        invariant
            i <= comps.len(),
            views(comps@) == components(relative@),
            forall|j: int| 0 <= j < i ==> !hidden_name(#[trigger] components(relative@)[j]),
        decreases comps.len() - i,
    {
        assert(components(relative@)[i as int] == comps@[i as int]@);
        if hidden_name_exec(&comps[i]) {
            return true;
        }
        i += 1;
    }
    false
}

/// A dot-folder or a common build or cache directory.
pub open spec fn noise_segment(name: Seq<char>) -> bool {
    (name.len() > 0 && name[0] == '.') || name == "node_modules"@ || name == "target"@ || name
        == "dist"@ || name == "build"@ || name == "__pycache__"@
}

/// Whether a single path segment is a dot-folder or a common build or cache directory.
pub fn path_segment_is_noise(segment: &str) -> (r: bool)
    ensures
        r == noise_segment(segment@),
{
    let v = chars_of(segment);
    (v.len() > 0 && v[0] == '.') || str_eq(segment, "node_modules") || str_eq(segment, "target")
        || str_eq(segment, "dist") || str_eq(segment, "build") || str_eq(segment, "__pycache__")
}

/// Whether any named component among `comps` is noise.
pub open spec fn noisy(comps: Seq<Seq<char>>) -> bool {
    exists|i: int| 0 <= i < comps.len() && is_normal(#[trigger] comps[i]) && noise_segment(comps[i])
}

fn noisy_from(comps: &Vec<Vec<char>>, from: usize) -> (r: bool)
    requires
        from <= comps.len(),
    ensures
        r == noisy(views(comps@).skip(from as int)),
{
    let ghost rest = views(comps@).skip(from as int);
    let mut i: usize = from;
    while i < comps.len()
        invariant
            from <= i <= comps.len(),
            rest == views(comps@).skip(from as int),
            forall|j: int| 0 <= j < i - from ==> !(is_normal(#[trigger] rest[j]) && noise_segment(rest[j])),
        decreases comps.len() - i,
    {
        assert(rest[i - from] == comps@[i as int]@);
        let s = crate::text::string_of(&comps[i]);
        if !hidden_like_special(&comps[i]) && path_segment_is_noise(s.as_str()) {
            return true;
        }
        i += 1;
    }
    false
}

/// Whether a component is the root, `.` or `..`.
fn hidden_like_special(c: &Vec<char>) -> (r: bool)
    ensures
        r == !is_normal(c@),
{
    let root = c.len() == 1 && c[0] == '/';
    let dot = c.len() == 1 && c[0] == '.';
    let dotdot = c.len() == 2 && c[0] == '.' && c[1] == '.';
    proof {
        if c@ == seq!['/'] || c@ == seq!['.'] {
            assert(c@.len() == 1 && c@[0] == c@[0]);
        }
        if c@ == seq!['.', '.'] {
            assert(c@.len() == 2 && c@[0] == '.' && c@[1] == '.');
        }
        if root {
            assert(c@ =~= seq!['/']);
        }
        if dot {
            assert(c@ =~= seq!['.']);
        }
        if dotdot {
            assert(c@ =~= seq!['.', '.']);
        }
    }
    root || dot || dotdot
}

/// Whether any named component of `path` is noise (e.g. `.git`, `target`,
/// `node_modules`).
pub fn path_has_noise_component(path: &str) -> (r: bool)
    ensures
        r == noisy(components(path@)),
{
    let comps = path_components(path);
    assert(views(comps@).skip(0) =~= views(comps@));
    noisy_from(&comps, 0)
}

/// `Path::extension`: what follows the last `.` of the file name, unless that `.` is
/// its first character.
pub open spec fn extension_spec(path: Seq<char>) -> Option<Seq<char>> {
    match file_name_spec(path) {
        None => None,
        Some(name) => {
            let k = last_index_of(name, '.');
            if k <= 0 {
                None
            } else {
                Some(name.skip(k + 1))
            }
        },
    }
}

fn extension(path: &str) -> (r: Option<Vec<char>>)
    ensures
        match r {
            Some(e) => extension_spec(path@) == Some(e@),
            None => extension_spec(path@) is None,
        },
{
    let name = match crate::config::file_name_of(path) {
        Some(n) => n,
        None => return None,
    };
    match last_index(&name, '.') {
        Some(k) => {
            if k == 0 {
                return None;
            }
            proof {
                crate::text::lemma_last_index_bounds(name@, '.');
            }
            let mut e: Vec<char> = Vec::new();
            crate::text::push_range(&mut e, &name, k + 1, name.len());
            assert(e@ =~= name@.skip(k + 1));
            Some(e)
        },
        None => None,
    }
}

pub open spec fn markdown_ext(e: Seq<char>) -> bool {
    crate::content::page::eq_ignore_case(e, "md"@) || crate::content::page::eq_ignore_case(
        e,
        "markdown"@,
    )
}

/// Whether `path` names a markdown file: its extension is `md` or `markdown`, in any
/// ASCII case.
pub open spec fn markdown_path(path: Seq<char>) -> bool {
    extension_spec(path) matches Some(e) && markdown_ext(e)
}

fn eq_ignore_case_exec(a: &Vec<char>, b: &str) -> (r: bool)
    ensures
        r == crate::content::page::eq_ignore_case(a@, b@),
{
    let la = crate::text::lower_vec(a);
    let bv = chars_of(b);
    let lb = crate::text::lower_vec(&bv);
    vec_eq(&la, &lb)
}

/// Whether `path` names a markdown file.
pub fn is_markdown_path(path: &str) -> (r: bool)
    ensures
        r == markdown_path(path@),
{
    match extension(path) {
        Some(e) => eq_ignore_case_exec(&e, "md") || eq_ignore_case_exec(&e, "markdown"),
        None => false,
    }
}

/// `path` with backslashes read as slashes.
pub open spec fn slashed(path: Seq<char>) -> Seq<char> {
    path.map_values(|c: char| if c == '\\' { '/' } else { c })
}

pub open spec fn template_ext(e: Seq<char>) -> bool {
    e == "html"@ || e == "xml"@ || e == "txt"@
}

pub open spec fn asset_ext(e: Seq<char>) -> bool {
    e == "css"@ || e == "js"@ || e == "woff"@ || e == "woff2"@ || e == "svg"@ || e == "png"@ || e
        == "jpg"@ || e == "jpeg"@ || e == "gif"@ || e == "webp"@
}

/// Theme templates and assets, the files whose change calls for a rebuild.
pub open spec fn theme_watch_path(path: Seq<char>) -> bool {
    let text = slashed(path);
    let ext = match extension_spec(path) {
        Some(e) => e,
        None => Seq::empty(),
    };
    if contains_seq(text, "/layouts/"@) || contains_seq(text, "/partials/"@) {
        template_ext(ext)
    } else if contains_seq(text, "/assets/"@) {
        asset_ext(ext)
    } else {
        false
    }
}

fn is_any(e: &Vec<char>, words: &Vec<&str>) -> (r: bool)
    ensures
        r == exists|i: int| 0 <= i < words@.len() && e@ == (#[trigger] words@[i])@,
{
    let mut i: usize = 0;
    while i < words.len()
        invariant
            i <= words.len(),
            forall|j: int| 0 <= j < i ==> e@ != (#[trigger] words@[j])@,
        decreases words.len() - i,
    {
        let w = chars_of(words[i]);
        if vec_eq(e, &w) {
            return true;
        }
        i += 1;
    }
    false
}

/// Whether a theme file is a template or asset whose change calls for a rebuild.
pub fn is_theme_watch_path(path: &str) -> (r: bool)
    ensures
        r == theme_watch_path(path@),
{
    let v = chars_of(path);
    let mut text: Vec<char> = Vec::new();
    let mut i: usize = 0;
    while i < v.len()
        invariant
            i <= v.len(),
            v@ == path@,
            text@ == slashed(v@.take(i as int)),
        decreases v.len() - i,
    {
        text.push(if v[i] == '\\' { '/' } else { v[i] });
        assert(text@ =~= slashed(v@.take(i + 1)));
        i += 1;
    }
    assert(v@.take(v@.len() as int) =~= v@);
    let ext: Vec<char> = match extension(path) {
        Some(e) => e,
        None => Vec::new(),
    };
    let mut layouts: Vec<char> = Vec::new();
    push_str(&mut layouts, "/layouts/");
    let mut partials: Vec<char> = Vec::new();
    push_str(&mut partials, "/partials/");
    let mut assets: Vec<char> = Vec::new();
    push_str(&mut assets, "/assets/");
    if contains_exec(&text, &layouts) || contains_exec(&text, &partials) {
        let words = vec!["html", "xml", "txt"];
        let r = is_any(&ext, &words);
        proof {
            if r {
                let k = choose|k: int| 0 <= k < words@.len() && ext@ == (#[trigger] words@[k])@;
                assert(k == 0 || k == 1 || k == 2);
            } else {
                assert(ext@ != words@[0]@ && ext@ != words@[1]@ && ext@ != words@[2]@);
            }
        }
        return r;
    }
    if contains_exec(&text, &assets) {
        let words = vec!["css", "js", "woff", "woff2", "svg", "png", "jpg", "jpeg", "gif", "webp"];
        let r = is_any(&ext, &words);
        proof {
            if r {
                let k = choose|k: int| 0 <= k < words@.len() && ext@ == (#[trigger] words@[k])@;
                assert(0 <= k < 10);
            } else {
                assert(forall|k: int| 0 <= k < 10 ==> ext@ != (#[trigger] words@[k])@);
                assert(ext@ != words@[0]@ && ext@ != words@[1]@ && ext@ != words@[2]@ && ext@ != words@[3]@ && ext@ != words@[4]@ && ext@ != words@[5]@ && ext@ != words@[6]@ && ext@ != words@[7]@ && ext@ != words@[8]@ && ext@ != words@[9]@);
            }
        }
        return r;
    }
    false
}

/// What a filesystem event did, as far as rebuilding cares.
#[derive(Debug, Clone, Copy, PartialEq, Eq, Structural)]
pub enum ChangeKind {
    Created,
    Removed,
    Renamed,
    Modified,
    Other,
}

/// Creating, removing or renaming something changes a site's structure.
pub open spec fn structural(kind: ChangeKind) -> bool {
    kind == ChangeKind::Created || kind == ChangeKind::Removed || kind == ChangeKind::Renamed
}

/// `Path::starts_with`: component by component.
pub open spec fn under(path: Seq<char>, root: Seq<char>) -> bool {
    is_prefix(components(root), components(path))
}

/// Whether `path` lies under `root` with a noise component below it.
pub open spec fn noise_within(path: Seq<char>, root: Seq<char>) -> bool {
    under(path, root) && noisy(components(path).skip(components(root).len() as int))
}

/// The first of `roots` that `path` lies under.
pub open spec fn first_root(path: Seq<char>, roots: Seq<Seq<char>>) -> Option<Seq<char>>
    decreases roots.len(),
{
    if roots.len() == 0 {
        None
    } else if under(path, roots[0]) {
        Some(roots[0])
    } else {
        first_root(path, roots.drop_first())
    }
}

/// Whether an event at `path` calls for a rebuild: a template or asset change in a
/// theme directory, or, under a site root and outside noise, a markdown change or any
/// change to the site's structure.
pub open spec fn rebuild_spec(
    path: Seq<char>,
    kind: ChangeKind,
    site_roots: Seq<Seq<char>>,
    theme_dirs: Seq<Seq<char>>,
) -> bool {
    (exists|j: int|
        0 <= j < theme_dirs.len() && under(path, #[trigger] theme_dirs[j]) && !noise_within(
            path,
            theme_dirs[j],
        ) && theme_watch_path(path)) || match first_root(path, site_roots) {
        None => false,
        Some(root) => !noise_within(path, root) && (markdown_path(path) || structural(kind)),
    }
}

fn under_exec(path: &Vec<Vec<char>>, root: &Vec<Vec<char>>) -> (r: bool)
    ensures
        r == is_prefix(views(root@), views(path@)),
{
    if root.len() > path.len() {
        return false;
    }
    let mut i: usize = 0;
    while i < root.len()
        invariant
            i <= root.len() <= path.len(),
            forall|j: int| 0 <= j < i ==> #[trigger] root@[j]@ == path@[j]@,
        decreases root.len() - i,
    {
        if !vec_eq(&root[i], &path[i]) {
            assert(views(path@).take(root@.len() as int)[i as int] != views(root@)[i as int]);
            return false;
        }
        i += 1;
    }
    assert(views(path@).take(root@.len() as int) =~= views(root@));
    true
}

pub open spec fn str_views(v: Seq<String>) -> Seq<Seq<char>> {
    v.map_values(|s: String| s@)
}

/// Whether a filesystem event at `path` should trigger a content rebuild.
pub fn should_trigger_rebuild(
    path: &str,
    kind: ChangeKind,
    site_roots: &Vec<String>,
    theme_dirs: &Vec<String>,
) -> (r: bool)
    ensures
        r == rebuild_spec(path@, kind, str_views(site_roots@), str_views(theme_dirs@)),
{
    let pc = path_components(path);
    let watched = is_theme_watch_path(path);
    let mut j: usize = 0;
    while j < theme_dirs.len()
        invariant
            j <= theme_dirs.len(),
            views(pc@) == components(path@),
            watched == theme_watch_path(path@),
            forall|k: int|
                0 <= k < j ==> !(under(path@, #[trigger] str_views(theme_dirs@)[k]) && !noise_within(
                    path@,
                    str_views(theme_dirs@)[k],
                ) && theme_watch_path(path@)),
        decreases theme_dirs.len() - j,
    {
        let dir = theme_dirs[j].as_str();
        assert(str_views(theme_dirs@)[j as int] == dir@);
        let dc = path_components(dir);
        if under_exec(&pc, &dc) {
            let noise = noisy_from(&pc, dc.len());
            assert(views(pc@).skip(views(dc@).len() as int) == components(path@).skip(components(dir@).len() as int));
            if !noise && watched {
                return true;
            }
        }
        j += 1;
    }
    let mut i: usize = 0;
    assert(str_views(site_roots@).skip(0) =~= str_views(site_roots@));
    while i < site_roots.len()
        invariant
            i <= site_roots.len(),
            views(pc@) == components(path@),
            first_root(path@, str_views(site_roots@)) == first_root(path@, str_views(site_roots@).skip(i as int)),
            forall|k: int|
                0 <= k < theme_dirs@.len() ==> !(under(path@, #[trigger] str_views(theme_dirs@)[k]) && !noise_within(
                    path@,
                    str_views(theme_dirs@)[k],
                ) && theme_watch_path(path@)),
        decreases site_roots.len() - i,
    {
        let root = site_roots[i].as_str();
        let ghost rest = str_views(site_roots@).skip(i as int);
        assert(rest[0] == root@);
        assert(rest.drop_first() =~= str_views(site_roots@).skip(i + 1));
        let rc = path_components(root);
        if under_exec(&pc, &rc) {
            assert(first_root(path@, str_views(site_roots@)) == Some(root@));
            let noise = noisy_from(&pc, rc.len());
            assert(views(pc@).skip(views(rc@).len() as int) == components(path@).skip(components(root@).len() as int));
            if noise {
                return false;
            }
            if is_markdown_path(path) {
                return true;
            }
            return kind == ChangeKind::Created || kind == ChangeKind::Removed || kind == ChangeKind::Renamed;
        }
        i += 1;
    }
    assert(str_views(site_roots@).skip(site_roots@.len() as int) =~= Seq::<Seq<char>>::empty());
    false
}

/// The index of the first name in `names` equal to `requested`, else -1.
pub open spec fn first_exact(names: Seq<Seq<char>>, requested: Seq<char>, from: int) -> int
    decreases names.len() - from,
{
    if from < 0 || from >= names.len() {
        -1
    } else if names[from] == requested {
        from
    } else {
        first_exact(names, requested, from + 1)
    }
}

/// The index of the first name in `names` equal to `requested` up to ASCII case, else -1.
pub open spec fn first_folded(names: Seq<Seq<char>>, requested: Seq<char>, from: int) -> int
    decreases names.len() - from,
{
    if from < 0 || from >= names.len() {
        -1
    } else if crate::content::page::eq_ignore_case(names[from], requested) {
        from
    } else {
        first_folded(names, requested, from + 1)
    }
}

/// Which directory entry a requested path component opens: an entry spelled exactly
/// so, which is the only right answer where case matters, else the first entry equal
/// up to ASCII case, which can only match where the filesystem would open it anyway.
pub open spec fn pick_entry_spec(names: Seq<Seq<char>>, requested: Seq<char>) -> Option<Seq<char>> {
    let e = first_exact(names, requested, 0);
    if e >= 0 {
        Some(names[e])
    } else {
        let f = first_folded(names, requested, 0);
        if f >= 0 {
            Some(names[f])
        } else {
            None
        }
    }
}

/// See [`pick_entry_spec`]; `names` is a directory's listing.
pub fn pick_entry(names: &Vec<String>, requested: &str) -> (r: Option<String>)
    ensures
        match r {
            Some(n) => pick_entry_spec(crate::text::string_seq(names@), requested@) == Some(n@),
            None => pick_entry_spec(crate::text::string_seq(names@), requested@) is None,
        },
{
    let ghost ns = crate::text::string_seq(names@);
    let mut i: usize = 0;
    while i < names.len()
        invariant
            i <= names.len(),
            ns == crate::text::string_seq(names@),
            first_exact(ns, requested@, 0) == first_exact(ns, requested@, i as int),
        decreases names.len() - i,
    {
        assert(ns[i as int] == names@[i as int]@);
        if str_eq(names[i].as_str(), requested) {
            return Some(names[i].clone());
        }
        i += 1;
    }
    let mut j: usize = 0;
    while j < names.len()
        invariant
            j <= names.len(),
            ns == crate::text::string_seq(names@),
            first_exact(ns, requested@, 0) == -1,
            first_folded(ns, requested@, 0) == first_folded(ns, requested@, j as int),
        decreases names.len() - j,
    {
        assert(ns[j as int] == names@[j as int]@);
        let v = chars_of(names[j].as_str());
        if crate::content::page::eq_ignore_case_exec(&v, requested) {
            return Some(names[j].clone());
        }
        j += 1;
    }
    None
}

} // verus!
