//! Lean gitignore stack for the discovery walk: per-repo global excludes,
//! info/exclude and per-directory .gitignore layers, queried per directory (the
//! engine claims ignored directories whole; it never matches individual files).

use crate::paths;
use crate::paths::{below, under};
use crate::seqs::{group_views, view_of, views};
use crate::text;
use crate::text::same;
use crate::walk::{Entry, EntryModel, utf8_text};
use ignore::Match;
use ignore::gitignore::{Gitignore, GitignoreBuilder};
use vstd::prelude::*;
use vstd::utf8::{decode_utf8, valid_utf8};

verus! {

broadcast use group_views;

// ---- the lines of ignore files ----

/// Where the line ends that begins at a place.
pub open spec fn line_end(bytes: Seq<u8>, from: int) -> int
    decreases bytes.len() - from,
{
    if from >= bytes.len() || bytes[from] == 10 {
        from
    } else {
        line_end(bytes, from + 1)
    }
}

pub proof fn lemma_line_end(bytes: Seq<u8>, from: int)
    requires
        0 <= from <= bytes.len(),
    ensures
        from <= line_end(bytes, from) <= bytes.len(),
    decreases bytes.len() - from,
{
    if from < bytes.len() && bytes[from] != 10 {
        lemma_line_end(bytes, from + 1);
    }
}

/// The line that begins at a place, without its end: a line feed, with a carriage
/// return before it or not.
pub open spec fn line_at(bytes: Seq<u8>, from: int) -> Seq<u8> {
    let end = line_end(bytes, from);
    if from < end < bytes.len() && bytes[end - 1] == 13 {
        bytes.subrange(from, end - 1)
    } else {
        bytes.subrange(from, end)
    }
}

/// The lines from a place on, up to the first that is not UTF-8.
pub open spec fn lines_from(bytes: Seq<u8>, from: int) -> Seq<Seq<char>>
    decreases bytes.len() + 1 - from,
{
    if from < 0 || from >= bytes.len() || !valid_utf8(line_at(bytes, from)) {
        Seq::empty()
    } else {
        proof {
            lemma_line_end(bytes, from);
        }
        seq![decode_utf8(line_at(bytes, from))] + lines_from(bytes, line_end(bytes, from) + 1)
    }
}

/// The lines of an ignore file, up to the first that is not UTF-8.
pub fn read_lines(bytes: &[u8]) -> (r: Vec<String>)
    ensures
        views(r@) == lines_from(bytes@, 0),
{
    let ghost all = lines_from(bytes@, 0);
    let mut r: Vec<String> = Vec::new();
    let n: usize = bytes.len();
    let mut from: usize = 0;
    assert(views(r@) + all =~= all);
    while from < n
        invariant_except_break
            views(r@) + lines_from(bytes@, from as int) == all,
        invariant
            from <= n,
            n == bytes@.len(),
            all == lines_from(bytes@, 0),
        ensures
            views(r@) == all,
        decreases n - from,
    {
        let mut end: usize = from;
        while end < n && bytes[end] != 10
            invariant
                from <= end <= n,
                n == bytes@.len(),
                line_end(bytes@, from as int) == line_end(bytes@, end as int),
            decreases n - end,
        {
            end += 1;
        }
        let stop: usize = if from < end && end < n && bytes[end - 1] == 13 {
            end - 1
        } else {
            end
        };
        let line = vstd::slice::slice_subrange(bytes, from, stop);
        assert(line@ == line_at(bytes@, from as int));
        match utf8_text(line) {
            Some(s) => {
                let ghost rest = lines_from(bytes@, end + 1);
                assert(lines_from(bytes@, from as int) == seq![s@] + rest);
                assert(views(r@) + (seq![s@] + rest) =~= views(r@).push(s@) + rest);
                r.push(s);
            },
            None => {
                assert(views(r@) + Seq::<Seq<char>>::empty() =~= views(r@));
                break;
            },
        }
        if end == n {
            assert(lines_from(bytes@, end + 1) =~= Seq::<Seq<char>>::empty());
            assert(views(r@) + Seq::<Seq<char>>::empty() =~= views(r@));
            break;
        }
        from = end + 1;
        if from == n {
            assert(views(r@) + Seq::<Seq<char>>::empty() =~= views(r@));
        }
    }
    r
}

// ---- the rules of ignore files ----

/// The rules of ignore files.
#[verifier::external_type_specification]
#[verifier::external_body]
pub struct ExGitignore(ignore::gitignore::Gitignore);

/// Rules of ignore files that are yet to be put together.
#[verifier::external_type_specification]
#[verifier::external_body]
pub struct ExGitignoreBuilder(ignore::gitignore::GitignoreBuilder);

/// The lines that were added.
pub uninterp spec fn lines_added(b: GitignoreBuilder) -> Seq<Seq<char>>;

/// The directory that rules are relative to, while they are put together.
pub uninterp spec fn base_of(b: GitignoreBuilder) -> Seq<char>;

/// The lines of which rules were made.
pub uninterp spec fn lines_in(m: Gitignore) -> Seq<Seq<char>>;

/// The directory that rules are relative to.
pub uninterp spec fn root_of(m: Gitignore) -> Seq<char>;

/// Whether lines can be put together.
pub uninterp spec fn lines_build(lines: Seq<Seq<char>>) -> bool;

/// Whether lines hold no rule.
pub uninterp spec fn no_rules(lines: Seq<Seq<char>>) -> bool;

/// What rules say of a path or the nearest directory above it that they speak
/// of: ignored, kept, or nothing.
pub uninterp spec fn verdict(
    root: Seq<char>,
    lines: Seq<Seq<char>>,
    path: Seq<char>,
    is_dir: bool,
) -> Option<bool>;

/// Calls `GitignoreBuilder::new`: nothing has been added yet.
#[verifier::external_body]
fn start_rules(root: &str) -> (r: GitignoreBuilder)
    ensures
        base_of(r) == root@,
        lines_added(r) == Seq::<Seq<char>>::empty(),
{
    GitignoreBuilder::new(root)
}

/// Calls `GitignoreBuilder::add_line`. A line that cannot be read adds no rule;
/// what the rules come to is a matter of the lines alone.
#[verifier::external_body]
fn add_line(b: &mut GitignoreBuilder, line: &str)
    ensures
        base_of(*final(b)) == base_of(*old(b)),
        lines_added(*final(b)) == lines_added(*old(b)).push(line@),
{
    let _ = b.add_line(None, line);
}

/// Calls `GitignoreBuilder::build`, which depends on the lines alone.
#[verifier::external_body]
fn build_rules(b: &GitignoreBuilder) -> (r: Option<Gitignore>)
    ensures
        r is Some == lines_build(lines_added(*b)),
        r matches Some(m) ==> lines_in(m) == lines_added(*b) && root_of(m) == base_of(*b),
{
    b.build().ok()
}

/// Calls `Gitignore::is_empty`, which depends on the lines alone.
#[verifier::external_body]
fn has_no_rules(m: &Gitignore) -> (r: bool)
    ensures
        r == no_rules(lines_in(*m)),
{
    m.is_empty()
}

/// Calls `Gitignore::clone`: the same rules for the same directory.
#[verifier::external_body]
fn copy_rules(m: &Gitignore) -> (r: Gitignore)
    ensures
        lines_in(r) == lines_in(*m),
        root_of(r) == root_of(*m),
{
    m.clone()
}

/// Calls `Gitignore::matched_path_or_any_parents`, which depends on the rules
/// and the path alone. It panics on a path that is not taken from the directory
/// of the rules, which is left out here.
#[verifier::external_body]
fn matched(m: &Gitignore, path: &str, is_dir: bool) -> (r: Option<bool>)
    requires
        strips(path@, root_of(*m)),
    ensures
        r == verdict(root_of(*m), lines_in(*m), path@, is_dir),
{
    match m.matched_path_or_any_parents(path, is_dir) {
        Match::Ignore(_) => Some(true),
        Match::Whitelist(_) => Some(false),
        Match::None => None,
    }
}

// ---- paths that rules can be asked about ----

/// A path without a leading `./`.
pub open spec fn undotted(s: Seq<char>) -> Seq<char> {
    if s.len() >= 2 && s[0] == '.' && s[1] == '/' {
        s.skip(2)
    } else {
        s
    }
}

/// Whether what follows a directory is relative once a slash is taken away.
pub open spec fn relative_rest(s: Seq<char>) -> bool {
    s.len() < 2 || s[0] != '/' || s[1] != '/'
}

/// Whether a text leads another.
pub open spec fn leads(s: Seq<char>, p: Seq<char>) -> bool {
    p.len() <= s.len() && s.take(p.len() as int) == p
}

/// Whether a path can be taken relative to a directory: it is relative as it
/// stands, or it continues the directory, with a single slash between.
pub open spec fn strips(path: Seq<char>, root: Seq<char>) -> bool {
    let p = undotted(path);
    let r = undotted(root);
    if leads(p, r) {
        relative_rest(p.skip(r.len() as int))
    } else {
        p.len() == 0 || p[0] != '/'
    }
}

/// The name of an entry: not empty, and without a slash.
pub open spec fn entry_name(name: Seq<char>) -> bool {
    name.len() > 0 && !name.contains('/')
}

/// An entry of a directory can be taken relative to whatever the directory can
/// be taken relative to.
pub proof fn law_entries_strip(dir: Seq<char>, name: Seq<char>, root: Seq<char>)
    requires
        strips(dir, root),
        entry_name(name),
    ensures
        strips(below(dir, name), root),
{
    let child = below(dir, name);
    assert(name[0] != '/') by {
        if name[0] == '/' {
            assert(name.contains('/'));
        }
    }
    assert forall|i: int| 0 <= i < name.len() implies name[i] != '/' by {
        if name[i] == '/' {
            assert(name.contains('/'));
        }
    }
    let p = undotted(child);
    let d = undotted(dir);
    let r = undotted(root);
    assert(child.len() >= dir.len() && child.take(dir.len() as int) =~= dir);
    if dir == seq!['.'] {
        assert(dir.last() == '.');
        assert(child =~= seq!['.', '/'] + name);
        assert(p =~= name);
        if leads(p, r) {
            let rest = p.skip(r.len() as int);
            if rest.len() >= 2 {
                assert(rest[0] == name[r.len() as int]);
            }
        }
    } else if dir.len() >= 2 && dir[0] == '.' && dir[1] == '/' {
        assert(child[0] == dir[0] && child[1] == dir[1]);
        assert(d =~= dir.skip(2));
        if d.len() == 0 {
            assert(dir.last() == '/');
            assert(p =~= name);
            if leads(p, r) {
                let rest = p.skip(r.len() as int);
                if rest.len() >= 2 {
                    assert(rest[0] == name[r.len() as int]);
                }
            }
        } else {
            assert(d.last() == dir.last());
            assert(p =~= below(d, name));
            lemma_continued(d, name, r);
        }
    } else {
        if child.len() >= 2 && child[0] == '.' && child[1] == '/' {
            if dir.len() == 0 {
                assert(child =~= name);
            } else if dir.len() == 1 {
                assert(dir[0] == child[0]);
                assert(dir =~= seq!['.']);
            } else {
                assert(dir[0] == child[0] && dir[1] == child[1]);
            }
        }
        assert(p == child && d == dir);
        lemma_continued(d, name, r);
    }
}

proof fn lemma_continued(d: Seq<char>, name: Seq<char>, r: Seq<char>)
    requires
        name.len() > 0,
        forall|i: int| 0 <= i < name.len() ==> name[i] != '/',
        if leads(d, r) {
            relative_rest(d.skip(r.len() as int))
        } else {
            d.len() == 0 || d[0] != '/'
        },
    ensures
        if leads(below(d, name), r) {
            relative_rest(below(d, name).skip(r.len() as int))
        } else {
            below(d, name).len() == 0 || below(d, name)[0] != '/'
        },
{
    let p = below(d, name);
    assert(p.len() > d.len() && p.take(d.len() as int) =~= d);
    assert forall|i: int| 0 <= i < d.len() implies p[i] == d[i] by {
        assert(p.take(d.len() as int)[i] == d[i]);
    }
    if leads(p, r) {
        let rest = p.skip(r.len() as int);
        if rest.len() >= 2 && rest[0] == '/' && rest[1] == '/' {
            let k = r.len() as int;
            assert(rest[0] == p[k] && rest[1] == p[k + 1]);
            if k + 1 < d.len() {
                assert(leads(d, r)) by {
                    assert(d.take(k) =~= p.take(k));
                }
                assert(d.skip(k)[0] == d[k] && d.skip(k)[1] == d[k + 1]);
            } else if k + 1 == d.len() {
                assert(d.last() == d[k]);
                assert(p[k + 1] == name[0]);
            } else {
                let from = p.len() - name.len();
                assert(p[k + 1] == name[k + 1 - from]);
            }
        }
    } else if p[0] == '/' {
        if d.len() == 0 {
            assert(p =~= name);
        } else {
            assert(d[0] == p[0]);
            assert(leads(d, r));
            assert(p.take(r.len() as int) =~= d.take(r.len() as int));
        }
    }
}

// ---- layers ----

/// The rules of one file, for one directory.
struct Layer {
    root: String,
    matcher: Gitignore,
}

#[verifier::ext_equal]
pub struct LayerModel {
    pub root: Seq<char>,
    pub lines: Seq<Seq<char>>,
}

impl View for Layer {
    type V = LayerModel;

    closed spec fn view(&self) -> LayerModel {
        LayerModel { root: self.root@, lines: lines_in(self.matcher) }
    }
}

impl Layer {
    spec fn wf(&self) -> bool {
        root_of(self.matcher) == self.root@
    }
}

/// The rules that apply in a directory, those of the repository first.
pub struct GitIgnoreStack {
    layers: Vec<Layer>,
}

impl View for GitIgnoreStack {
    type V = Seq<LayerModel>;

    closed spec fn view(&self) -> Seq<LayerModel> {
        views(self.layers@)
    }
}

/// Lines without the mark that may lead a text.
pub open spec fn unmarked(lines: Seq<Seq<char>>) -> Seq<Seq<char>> {
    if lines.len() == 0 {
        lines
    } else {
        lines.update(0, text::trim_start_of(lines[0], '\u{feff}'))
    }
}

/// The layer of the lines of a file, where they hold a rule.
pub open spec fn layer_of(root: Seq<char>, lines: Seq<Seq<char>>) -> Option<LayerModel> {
    if lines_build(unmarked(lines)) && !no_rules(unmarked(lines)) {
        Some(LayerModel { root, lines: unmarked(lines) })
    } else {
        None
    }
}

fn load_layer(root: &str, lines: &Vec<String>) -> (r: Option<Layer>)
    ensures
        view_of(r) == layer_of(root@, views(lines@)),
        r matches Some(l) ==> l.wf(),
{
    let ghost all = unmarked(views(lines@));
    let mut b = start_rules(root);
    let mut i: usize = 0;
    assert(all.take(0) =~= Seq::<Seq<char>>::empty());
    while i < lines.len()
        invariant
            i <= lines@.len(),
            all == unmarked(views(lines@)),
            base_of(b) == root@,
            lines_added(b) == all.take(i as int),
        decreases lines@.len() - i,
    {
        if i == 0 {
            let first = text::trim_start_matches(lines[0].as_str(), '\u{feff}');
            add_line(&mut b, first.as_str());
        } else {
            add_line(&mut b, lines[i].as_str());
        }
        assert(all.take(i + 1) =~= all.take(i as int).push(all[i as int]));
        i += 1;
    }
    assert(all.take(i as int) =~= all);
    match build_rules(&b) {
        Some(m) => if has_no_rules(&m) {
            None
        } else {
            Some(Layer { root: root.to_owned(), matcher: m })
        },
        None => None,
    }
}

/// Layers to which one was added, where there is one.
pub open spec fn with_layer(layers: Seq<LayerModel>, layer: Option<LayerModel>) -> Seq<LayerModel> {
    match layer {
        Some(l) => layers.push(l),
        None => layers,
    }
}

/// The layers of a repository: the excludes of the user, then those of the
/// repository itself, where the files could be read.
pub open spec fn repo_layers(
    root: Seq<char>,
    global: Seq<Seq<char>>,
    own: Option<Seq<Seq<char>>>,
) -> Seq<LayerModel> {
    let first = with_layer(Seq::empty(), layer_of(root, global));
    match own {
        Some(lines) => with_layer(first, layer_of(root, lines)),
        None => first,
    }
}

pub open spec fn opt_lines(lines: Option<Vec<String>>) -> Option<Seq<Seq<char>>> {
    match lines {
        Some(l) => Some(views(l@)),
        None => None,
    }
}

/// Whether a directory shows an ignore file of its own.
pub open spec fn shows_gitignore(entries: Seq<EntryModel>) -> bool {
    exists|i: int|
    0 <= i < entries.len() && !(#[trigger] entries[i]).is_dir && entries[i].name
        == ".gitignore"@
}

/// Whether a directory shows an ignore file of its own.
pub fn has_gitignore(entries: &Vec<Entry>) -> (r: bool)
    ensures
        r == shows_gitignore(views(entries@)),
{
    let ghost all = views(entries@);
    let mut i: usize = 0;
    while i < entries.len()
        invariant
            i <= entries@.len(),
            all == views(entries@),
            forall|j: int|
            0 <= j < i ==> (#[trigger] all[j]).is_dir || all[j].name != ".gitignore"@,
        decreases entries@.len() - i,
    {
        assert(all[i as int] == entries@[i as int]@);
        if !entries[i].is_dir && same(entries[i].name.as_str(), ".gitignore") {
            return true;
        }
        i += 1;
    }
    false
}

/// Whether a path is ignored: the last layer that speaks of it decides.
pub open spec fn ignores(layers: Seq<LayerModel>, path: Seq<char>, is_dir: bool) -> bool
    decreases layers.len(),
{
    if layers.len() == 0 {
        false
    } else {
        let l = layers.last();
        let said = verdict(l.root, l.lines, path, is_dir);
        if under(path, l.root) && said is Some {
            said->0
        } else {
            ignores(layers.drop_last(), path, is_dir)
        }
    }
}

/// Whether all layers can be asked about a path.
pub open spec fn all_strip(layers: Seq<LayerModel>, path: Seq<char>) -> bool {
    forall|i: int| 0 <= i < layers.len() ==> strips(path, (#[trigger] layers[i]).root)
}

/// Whether the layers of the directories that a path lies in can be asked about
/// it.
pub open spec fn can_ask(layers: Seq<LayerModel>, path: Seq<char>) -> bool {
    forall|i: int|
        0 <= i < layers.len() && under(path, (#[trigger] layers[i]).root) ==> strips(
            path,
            layers[i].root,
        )
}

fn is_undotted(v: &Vec<char>) -> (r: usize)
    ensures
        r <= v@.len(),
        v@.skip(r as int) == undotted(v@),
{
    if v.len() >= 2 && v[0] == '.' && v[1] == '/' {
        2
    } else {
        assert(v@.skip(0) =~= v@);
        0
    }
}

/// Whether a path can be taken relative to a directory.
fn strips_from(path: &str, root: &str) -> (r: bool)
    ensures
        r == strips(path@, root@),
{
    let p = text::chars_of(path);
    let q = text::chars_of(root);
    let a: usize = is_undotted(&p);
    let b: usize = is_undotted(&q);
    let ghost x = undotted(path@);
    let ghost y = undotted(root@);
    let whole: usize = p.len();
    let other: usize = q.len();
    let n: usize = other - b;
    if whole - a < n {
        return a == whole || p[a] != '/';
    }
    let mut i: usize = 0;
    while i < n
        invariant
            i <= n,
            whole == p@.len(),
            other == q@.len(),
            n == other - b,
            a + n <= whole,
            b <= other,
            p@ == path@,
            x == p@.skip(a as int),
            y == q@.skip(b as int),
            x == undotted(path@),
            y == undotted(root@),
            x.take(i as int) == y.take(i as int),
        decreases n - i,
    {
        assert(x[i as int] == p@[a + i] && y[i as int] == q@[b + i]);
        if p[a + i] != q[b + i] {
            assert(!leads(x, y)) by {
                if leads(x, y) {
                    assert(x.take(y.len() as int)[i as int] == y[i as int]);
                }
            }
            return p[a] != '/';
        }
        assert(x.take(i + 1) =~= x.take(i as int).push(x[i as int]));
        assert(y.take(i + 1) =~= y.take(i as int).push(y[i as int]));
        i += 1;
    }
    assert(y.take(n as int) =~= y);
    let ghost rest = x.skip(n as int);
    let left: usize = whole - a - n;
    assert(rest.len() == left);
    if left < 2 {
        return true;
    }
    assert(rest[0] == p@[a + n] && rest[1] == p@[a + n + 1]);
    p[a + n] != '/' || p[a + n + 1] != '/'
}

impl GitIgnoreStack {
    /// Whether all layers can be asked about a path and what lies in it.
    pub fn covers(&self, path: &str) -> (r: bool)
        ensures
            r == all_strip(self@, path@),
    {
        let ghost all = self@;
        let mut i: usize = 0;
        while i < self.layers.len()
            invariant
                i <= self.layers@.len(),
                all == self@,
                forall|j: int| 0 <= j < i ==> strips(path@, (#[trigger] all[j]).root),
            decreases self.layers@.len() - i,
        {
            assert(all[i as int] == self.layers@[i as int]@);
            if !strips_from(path, self.layers[i].root.as_str()) {
                return false;
            }
            i += 1;
        }
        true
    }

    /// Whether each layer is made for its directory.
    pub closed spec fn wf(&self) -> bool {
        forall|i: int| 0 <= i < self.layers@.len() ==> (#[trigger] self.layers@[i]).wf()
    }

    /// The stack of a repository. `global` are the lines of the excludes of the
    /// user, `own` those of the excludes of the repository.
    pub fn for_repo(repo_root: &str, global: &Vec<String>, own: &Option<Vec<String>>) -> (r: Self)
        ensures
            r.wf(),
            r@ == repo_layers(repo_root@, views(global@), opt_lines(*own)),
    {
        let mut layers: Vec<Layer> = Vec::new();
        if let Some(l) = load_layer(repo_root, global) {
            layers.push(l);
        }
        assert(views(layers@) =~= with_layer(Seq::empty(), layer_of(repo_root@, views(global@))));
        if let Some(lines) = own {
            if let Some(l) = load_layer(repo_root, lines) {
                layers.push(l);
            }
        }
        GitIgnoreStack { layers }
    }

    /// The stack with a layer for the ignore file of a directory, where its listing
    /// shows one and it holds a rule. `lines` are those of the file.
    pub fn extend_for_dir(&self, dir: &str, entries: &Vec<Entry>, lines: &Vec<String>) -> (r: Option<
        Self,
        >)
        requires
            self.wf(),
        ensures
            match r {
                Some(s) => s.wf() && shows_gitignore(views(entries@)) && layer_of(dir@, views(lines@)) is Some
                    && s@ == with_layer(self@, layer_of(dir@, views(lines@))),
                None => !shows_gitignore(views(entries@)) || layer_of(dir@, views(lines@)) is None,
            },
    {
        if !has_gitignore(entries) {
            return None;
        }
        let layer = match load_layer(dir, lines) {
            Some(l) => l,
            None => {
                return None;
            },
        };
        let mut layers: Vec<Layer> = Vec::new();
        let mut i: usize = 0;
        while i < self.layers.len()
            invariant
                i <= self.layers@.len(),
                self.wf(),
                layers@.len() == i,
                forall|j: int|
                0 <= j < i ==> (#[trigger] layers@[j]).wf() && layers@[j]@ == self.layers@[j]@,
            decreases self.layers@.len() - i,
        {
            assert(self.layers@[i as int].wf());
            let l = Layer {
                root: self.layers[i].root.clone(),
                matcher: copy_rules(&self.layers[i].matcher),
            };
            assert(l@ == self.layers@[i as int]@);
            layers.push(l);
            i += 1;
        }
        layers.push(layer);
        let s = GitIgnoreStack { layers };
        assert(s@ =~= self@.push(layer@));
        Some(s)
    }

    /// Whether a path is ignored: the last layer that speaks of it decides.
    pub fn is_ignored(&self, path: &str, is_dir: bool) -> (r: bool)
        requires
            self.wf(),
            can_ask(self@, path@),
        ensures
            r == ignores(self@, path@, is_dir),
    {
        let ghost all = self@;
        let mut n: usize = self.layers.len();
        assert(all.take(n as int) =~= all);
        while n > 0
            invariant
                n <= self.layers@.len(),
                self.wf(),
                all == self@,
                can_ask(all, path@),
                ignores(all, path@, is_dir) == ignores(all.take(n as int), path@, is_dir),
            decreases n,
        {
            assert(all.take(n as int).drop_last() =~= all.take(n - 1));
            let layer = &self.layers[n - 1];
            assert(layer.wf());
            assert(all[n - 1] == layer@);
            if paths::starts_with(path, layer.root.as_str()) {
                if let Some(b) = matched(&layer.matcher, path, is_dir) {
                    return b;
                }
            }
            n -= 1;
        }
        false
    }
}

// ---- where the repository keeps its data ----

/// What stands at `.git`.
pub enum GitEntry {
    Directory,
    /// A file, with its text where it could be read.
    File(Option<String>),
    Absent,
}

/// Where the file at `.git` leads to.
pub open spec fn git_link(root: Seq<char>, contents: Seq<char>) -> Option<Seq<char>> {
    let lines = text::lines_of(contents);
    if lines.len() == 0 {
        None
    } else {
        match text::without_prefix(text::trimmed(lines[0]), "gitdir:"@) {
            Some(rest) => if text::trimmed(rest).len() == 0 {
                None
            } else {
                Some(below(root, text::trimmed(rest)))
            },
            None => None,
        }
    }
}

/// Where a repository keeps its data.
pub fn resolve_git_dir(repo_root: &str, entry: &GitEntry) -> (r: Option<String>)
    ensures
        view_of(r) == match *entry {
            GitEntry::Directory => Some(below(repo_root@, ".git"@)),
            GitEntry::File(Some(contents)) => git_link(repo_root@, contents@),
            _ => None,
        },
{
    match entry {
        GitEntry::Directory => Some(paths::join(repo_root, ".git")),
        GitEntry::File(Some(contents)) => {
            let lines = text::lines(contents.as_str());
            assert(views(lines@).len() == lines@.len());
            if lines.len() == 0 {
                return None;
            }
            match text::strip_prefix(text::trim(lines[0].as_str()).as_str(), "gitdir:") {
                Some(rest) => {
                    let t = text::trim(rest.as_str());
                    if t.as_str().is_empty() {
                        None
                    } else {
                        Some(paths::join(repo_root, t.as_str()))
                    }
                },
                None => None,
            }
        },
        _ => None,
    }
}

// ---- laws ----

/// A layer that speaks of a path overrides those before it.
pub proof fn law_last_layer_decides(layers: Seq<LayerModel>, l: LayerModel, path: Seq<char>, is_dir: bool)
    requires
        under(path, l.root),
        verdict(l.root, l.lines, path, is_dir) is Some,
    ensures
        ignores(layers.push(l), path, is_dir) == verdict(l.root, l.lines, path, is_dir)->0,
{
    assert(layers.push(l).last() == l);
}

/// A layer for another directory changes nothing.
pub proof fn law_other_directories_do_not_matter(
    layers: Seq<LayerModel>,
    l: LayerModel,
    path: Seq<char>,
    is_dir: bool,
)
    requires
        !under(path, l.root),
    ensures
        ignores(layers.push(l), path, is_dir) == ignores(layers, path, is_dir),
{
    assert(layers.push(l).drop_last() =~= layers);
}

/// A layer that says nothing of a path leaves the word to those before it; without
/// any layer nothing is ignored.
pub proof fn law_silent_layers_pass(layers: Seq<LayerModel>, l: LayerModel, path: Seq<char>, is_dir: bool)
    requires
        verdict(l.root, l.lines, path, is_dir) is None,
    ensures
        ignores(layers.push(l), path, is_dir) == ignores(layers, path, is_dir),
        !ignores(Seq::empty(), path, is_dir),
{
    assert(layers.push(l).drop_last() =~= layers);
}

/// A repository has the layer of the global rules first and its own after it, each
/// only where it holds rules that can be read.
pub proof fn law_own_rules_come_last(root: Seq<char>, global: Seq<Seq<char>>, own: Seq<Seq<char>>)
    requires
        layer_of(root, own) is Some,
    ensures
        repo_layers(root, global, Some(own)).len() > 0,
        repo_layers(root, global, Some(own)).last() == layer_of(root, own)->0,
        layer_of(root, global) is Some ==> repo_layers(root, global, Some(own)).len() == 2
            && repo_layers(root, global, Some(own))[0] == layer_of(root, global)->0,
        layer_of(root, global) is None ==> repo_layers(root, global, Some(own)).len() == 1,
{
}

/// A file that stands for the data of a repository leads to the place that its first
/// line names behind `gitdir:`, below the root, and nowhere otherwise.
pub proof fn law_links_name_the_data(root: Seq<char>, contents: Seq<char>, rest: Seq<char>)
    requires
        text::lines_of(contents).len() > 0,
    ensures
        text::trimmed(text::lines_of(contents)[0]) == "gitdir:"@ + rest && text::trimmed(rest).len() > 0
            ==> git_link(root, contents) == Some(below(root, text::trimmed(rest))),
        text::trimmed(text::lines_of(contents)[0]) == "gitdir:"@ + rest && text::trimmed(rest).len() == 0
            ==> git_link(root, contents) is None,
        !text::begins(text::trimmed(text::lines_of(contents)[0]), "gitdir:"@) ==> git_link(root, contents) is None,
{
    let line = text::trimmed(text::lines_of(contents)[0]);
    text::law_prefixes_come_off("gitdir:"@, rest, line);
}

/// A directory has ignore rules of its own exactly where it lists a file of that name.
pub proof fn law_ignore_files_are_files(entries: Seq<EntryModel>, i: int)
    requires
        0 <= i < entries.len(),
    ensures
        entries[i].name == ".gitignore"@ && !entries[i].is_dir ==> shows_gitignore(entries),
        (forall|j: int|
            0 <= j < entries.len() ==> (#[trigger] entries[j]).name != ".gitignore"@ || entries[j].is_dir)
            ==> !shows_gitignore(entries),
{
}

proof fn lemma_end_shifted(a: Seq<u8>, b: Seq<u8>, from: int)
    requires
        0 <= from <= b.len(),
    ensures
        line_end(a + b, a.len() + from) == a.len() + line_end(b, from),
        from <= line_end(b, from) <= b.len(),
    decreases b.len() - from,
{
    if from < b.len() && b[from] != 10 {
        lemma_end_shifted(a, b, from + 1);
    }
}

proof fn lemma_lines_shifted(a: Seq<u8>, b: Seq<u8>, from: int)
    requires
        0 <= from,
    ensures
        lines_from(a + b, a.len() + from) == lines_from(b, from),
    decreases b.len() + 1 - from,
{
    if from < b.len() {
        lemma_end_shifted(a, b, from);
        let end = line_end(b, from);
        let s = a + b;
        let k = a.len() + from;
        assert(s.subrange(k, a.len() + end) =~= b.subrange(from, end));
        if from < end {
            assert(s[a.len() + end - 1] == b[end - 1]);
            assert(s.subrange(k, a.len() + end - 1) =~= b.subrange(from, end - 1));
        }
        assert(line_at(s, k) == line_at(b, from));
        lemma_lines_shifted(a, b, end + 1);
        assert(a.len() + (end + 1) == (a.len() + end) + 1);
    }
}

proof fn lemma_line_ends(line: Seq<u8>, rest: Seq<u8>, from: int)
    requires
        0 <= from <= line.len(),
        forall|i: int| 0 <= i < line.len() ==> #[trigger] line[i] != 10,
    ensures
        line_end(line + seq![10u8] + rest, from) == line.len(),
    decreases line.len() - from,
{
    let s = line + seq![10u8] + rest;
    if from < line.len() {
        assert(s[from] == line[from]);
        lemma_line_ends(line, rest, from + 1);
    } else {
        assert(s[from] == 10);
    }
}

/// The lines of a file stand before their line feeds, one after the other, up to the
/// first that is no text; a carriage return before a line feed is no part of a line.
pub proof fn law_lines_stand_before_line_feeds(line: Seq<u8>, rest: Seq<u8>)
    requires
        forall|i: int| 0 <= i < line.len() ==> #[trigger] line[i] != 10,
    ensures
        valid_utf8(line) && (line.len() == 0 || line.last() != 13) ==> lines_from(line + seq![10u8] + rest, 0)
            == seq![decode_utf8(line)] + lines_from(rest, 0),
        valid_utf8(line) ==> lines_from(line + seq![13u8, 10u8] + rest, 0) == seq![decode_utf8(line)]
            + lines_from(rest, 0),
        !valid_utf8(line) && line.last() != 13 ==> lines_from(line + seq![10u8] + rest, 0) == Seq::<Seq<char>>::empty(),
        lines_from(rest, rest.len() as int) == Seq::<Seq<char>>::empty(),
{
    let s = line + seq![10u8] + rest;
    lemma_line_ends(line, rest, 0);
    assert(s.subrange(0, line.len() as int) =~= line);
    if line.len() > 0 {
        assert(s[line.len() - 1] == line.last());
    }
    assert(s =~= (line + seq![10u8]) + rest);
    lemma_lines_shifted(line + seq![10u8], rest, 0);
    assert((line + seq![10u8]).len() == line.len() + 1);
    if line.len() == 0 || line.last() != 13 {
        assert(line_at(s, 0) == line);
    }
    let longer = line.push(13u8);
    let t = line + seq![13u8, 10u8] + rest;
    assert(t =~= longer + seq![10u8] + rest);
    lemma_line_ends(longer, rest, 0);
    assert(t.subrange(0, line.len() as int) =~= line);
    assert(t[line.len() as int] == 13);
    assert(line_at(t, 0) == line);
    assert(t =~= (longer + seq![10u8]) + rest);
    lemma_lines_shifted(longer + seq![10u8], rest, 0);
    assert((longer + seq![10u8]).len() == line.len() + 2);
}

} // verus!
