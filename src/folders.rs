//! Folder paths of a mail archive: turning the on-disk folder names of a
//! maildir tree into sequences of path segments.
use vstd::prelude::*;
use vstd::string::*;

verus! {

/// A folder path: the sequence of its segments.
pub type PathView = Seq<Seq<char>>;

/// The pieces of `s` between occurrences of `sep`, as `str::split` yields
/// them: always at least one piece, empty pieces kept.
pub open spec fn split_spec(s: Seq<char>, sep: char) -> Seq<Seq<char>>
    decreases s.len(),
{
    if s.len() == 0 {
        seq![Seq::<char>::empty()]
    } else {
        let rest = split_spec(s.drop_last(), sep);
        if s.last() == sep {
            rest.push(Seq::<char>::empty())
        } else {
            rest.update(rest.len() - 1, rest.last().push(s.last()))
        }
    }
}

proof fn lemma_split_nonempty(s: Seq<char>, sep: char)
    ensures
        split_spec(s, sep).len() >= 1,
    decreases s.len(),
{
    if s.len() > 0 {
        lemma_split_nonempty(s.drop_last(), sep);
    }
}

/// The text of `s` without leading and trailing whitespace, as `str::trim`
/// gives it.
pub uninterp spec fn trimmed(s: Seq<char>) -> Seq<char>;

/// Relies on `str::trim`: the result is the argument with its leading and
/// trailing whitespace removed, a function of the characters alone.
#[verifier::external_body]
fn trim_text(s: &str) -> (r: String)
    ensures
        r@ == trimmed(s@),
{
    s.trim().to_string()
}

/// The segment that a piece of a folder name stands for: the piece trimmed,
/// or the placeholder `"."` when nothing is left.
pub open spec fn segment_spec(piece: Seq<char>) -> Seq<char> {
    if trimmed(piece).len() == 0 {
        seq!['.']
    } else {
        trimmed(piece)
    }
}

/// The path that an on-disk folder name denotes, with `sep` as hierarchy
/// separator.
pub open spec fn folder_path_spec(name: Seq<char>, sep: char) -> PathView {
    split_spec(name, sep).map_values(|piece: Seq<char>| segment_spec(piece))
}

/// Splits `s` at every occurrence of `sep`.
pub fn split_text(s: &str, sep: char) -> (r: Vec<String>)
    ensures
        r.deep_view() == split_spec(s@, sep),
{
    let n = s.unicode_len();
    let mut parts: Vec<String> = Vec::new();
    let mut start: usize = 0;
    let mut i: usize = 0;
    assert(s@.take(0) =~= Seq::<char>::empty());
    assert(parts.deep_view().push(s@.subrange(0, 0)) =~= seq![Seq::<char>::empty()]);
    while i < n
        invariant
            n == s@.len(),
            start <= i <= n,
            parts.deep_view().push(s@.subrange(start as int, i as int)) == split_spec(
                s@.take(i as int),
                sep,
            ),
        decreases n - i,
    {
        let c = s.get_char(i);
        proof {
            let t = s@.take(i as int + 1);
            assert(t.drop_last() =~= s@.take(i as int));
            assert(t.last() == c);
            lemma_split_nonempty(s@.take(i as int), sep);
        }
        if c == sep {
            let piece = s.substring_char(start, i).to_owned();
            let ghost before = parts.deep_view();
            parts.push(piece);
            assert(parts.deep_view() =~= before.push(piece@));
            start = i + 1;
            assert(s@.subrange(start as int, i as int + 1) =~= Seq::<char>::empty());
        } else {
            assert(s@.subrange(start as int, i as int + 1) =~= s@.subrange(
                start as int,
                i as int,
            ).push(c));
            assert(parts.deep_view().push(s@.subrange(start as int, i as int + 1))
                =~= parts.deep_view().push(s@.subrange(start as int, i as int)).update(
                parts.deep_view().len() as int,
                s@.subrange(start as int, i as int).push(c),
            ));
        }
        i = i + 1;
    }
    let last = s.substring_char(start, n).to_owned();
    let ghost before = parts.deep_view();
    parts.push(last);
    assert(parts.deep_view() =~= before.push(last@));
    assert(s@.take(n as int) =~= s@);
    parts
}

/// Turns an on-disk folder name into its path: the name is split at `sep`,
/// each piece trimmed, and a piece left empty becomes the placeholder `"."`.
pub fn folder_path(name: &str, sep: char) -> (r: Vec<String>)
    ensures
        r.deep_view() == folder_path_spec(name@, sep),
{
    let pieces = split_text(name, sep);
    let mut r: Vec<String> = Vec::new();
    let mut i: usize = 0;
    while i < pieces.len()
        invariant
            i <= pieces.len(),
            pieces.deep_view() == split_spec(name@, sep),
            r.deep_view() =~= folder_path_spec(name@, sep).take(i as int),
        decreases pieces.len() - i,
    {
        let t = trim_text(pieces[i].as_str());
        let seg = if t.as_str().is_empty() {
            let dot = String::from_str(".");
            proof {
                reveal_strlit(".");
            }
            dot
        } else {
            t
        };
        assert(seg@ == segment_spec(pieces.deep_view()[i as int]));
        let ghost before = r.deep_view();
        r.push(seg);
        assert(r.deep_view() =~= before.push(seg@));
        i = i + 1;
    }
    r
}

/// Whether two paths are equal, segment by segment.
pub fn same_path(a: &Vec<String>, b: &Vec<String>) -> (r: bool)
    ensures
        r == (a.deep_view() == b.deep_view()),
{
    if a.len() != b.len() {
        assert(a.deep_view().len() != b.deep_view().len());
        return false;
    }
    let mut i: usize = 0;
    while i < a.len()
        invariant
            a.len() == b.len(),
            i <= a.len(),
            forall|k: int| 0 <= k < i ==> a[k]@ == b[k]@,
        decreases a.len() - i,
    {
        if a[i] != b[i] {
            assert(a.deep_view()[i as int] != b.deep_view()[i as int]);
            return false;
        }
        i = i + 1;
    }
    assert(a.deep_view() =~= b.deep_view());
    true
}

/// Where `p` first occurs in `paths`, if it does.
pub fn find_path(paths: &Vec<Vec<String>>, p: &Vec<String>) -> (r: Option<usize>)
    ensures
        match r {
            Some(j) => j < paths.len() && paths.deep_view()[j as int] == p.deep_view() && forall|
                k: int,
            | 0 <= k < j ==> paths.deep_view()[k] != p.deep_view(),
            None => !paths.deep_view().contains(p.deep_view()),
        },
{
    let mut j: usize = 0;
    while j < paths.len()
        invariant
            j <= paths.len(),
            forall|k: int| 0 <= k < j ==> paths.deep_view()[k] != p.deep_view(),
        decreases paths.len() - j,
    {
        if same_path(&paths[j], p) {
            return Some(j);
        }
        j = j + 1;
    }
    None
}

/// `ps` with `p` appended, unless it already holds it.
pub open spec fn add_path(ps: Seq<PathView>, p: PathView) -> Seq<PathView> {
    if ps.contains(p) {
        ps
    } else {
        ps.push(p)
    }
}

/// `ps` after adding the first `n` non-empty prefixes of `p`, shortest first.
pub open spec fn add_prefixes(ps: Seq<PathView>, p: PathView, n: nat) -> Seq<PathView>
    decreases n,
{
    if n == 0 {
        ps
    } else {
        add_path(add_prefixes(ps, p, (n - 1) as nat), p.take(n as int))
    }
}

/// `ps` after taking in the folder whose path is `p`: the root path itself,
/// or every non-empty prefix of a deeper path, so that each folder's
/// ancestors are listed before it.
pub open spec fn add_folder(ps: Seq<PathView>, p: PathView) -> Seq<PathView> {
    if p.len() == 0 {
        add_path(ps, p)
    } else {
        add_prefixes(ps, p, p.len())
    }
}

/// The path list built from the folder paths `fs`, taken in order.
pub open spec fn plan_spec(fs: Seq<PathView>) -> Seq<PathView>
    decreases fs.len(),
{
    if fs.len() == 0 {
        Seq::empty()
    } else {
        add_folder(plan_spec(fs.drop_last()), fs.last())
    }
}

/// A path list is well formed when its paths are distinct and every path of
/// two or more segments has its parent path at an earlier position.
pub open spec fn plan_wf(ps: Seq<PathView>) -> bool {
    &&& forall|a: int, b: int| 0 <= a < b < ps.len() ==> ps[a] != ps[b]
    &&& forall|k: int|
        #![trigger ps[k]]
        0 <= k < ps.len() && ps[k].len() > 1 ==> exists|j: int|
            0 <= j < k && ps[j] == ps[k].drop_last()
}

proof fn lemma_add_path_wf(ps: Seq<PathView>, p: PathView)
    requires
        plan_wf(ps),
        p.len() > 1 ==> ps.contains(p.drop_last()),
    ensures
        plan_wf(add_path(ps, p)),
        add_path(ps, p).contains(p),
        forall|q: PathView| ps.contains(q) ==> add_path(ps, p).contains(q),
        add_path(ps, p).len() >= ps.len(),
        forall|k: int| 0 <= k < ps.len() ==> add_path(ps, p)[k] == ps[k],
{
    let r = add_path(ps, p);
    if !ps.contains(p) {
        assert(r.last() == p);
        assert forall|k: int| 0 <= k < r.len() && r[k].len() > 1 implies exists|j: int|
            0 <= j < k && r[j] == r[k].drop_last() by {
            if k < ps.len() {
                assert(r[k] == ps[k]);
                let j = choose|j: int| 0 <= j < k && ps[j] == ps[k].drop_last();
                assert(r[j] == ps[j]);
            } else {
                let j = choose|j: int| 0 <= j < ps.len() && ps[j] == p.drop_last();
                assert(r[j] == ps[j]);
            }
        }
        assert forall|q: PathView| ps.contains(q) implies r.contains(q) by {
            let j = choose|j: int| 0 <= j < ps.len() && ps[j] == q;
            assert(r[j] == q);
        }
    }
}

proof fn lemma_add_prefixes_wf(ps: Seq<PathView>, p: PathView, n: nat)
    requires
        plan_wf(ps),
        n <= p.len(),
    ensures
        plan_wf(add_prefixes(ps, p, n)),
        forall|m: int| 1 <= m <= n ==> add_prefixes(ps, p, n).contains(#[trigger] p.take(m)),
        forall|q: PathView| ps.contains(q) ==> add_prefixes(ps, p, n).contains(q),
        add_prefixes(ps, p, n).len() >= ps.len(),
        forall|k: int| 0 <= k < ps.len() ==> add_prefixes(ps, p, n)[k] == ps[k],
    decreases n,
{
    if n > 0 {
        let prev = add_prefixes(ps, p, (n - 1) as nat);
        lemma_add_prefixes_wf(ps, p, (n - 1) as nat);
        if n > 1 {
            assert(p.take(n as int).drop_last() =~= p.take(n - 1));
        }
        lemma_add_path_wf(prev, p.take(n as int));
    }
}

proof fn lemma_add_folder_wf(ps: Seq<PathView>, p: PathView)
    requires
        plan_wf(ps),
    ensures
        plan_wf(add_folder(ps, p)),
        add_folder(ps, p).contains(p),
        forall|q: PathView| ps.contains(q) ==> add_folder(ps, p).contains(q),
        add_folder(ps, p).len() >= ps.len(),
        forall|k: int| 0 <= k < ps.len() ==> add_folder(ps, p)[k] == ps[k],
{
    if p.len() == 0 {
        lemma_add_path_wf(ps, p);
    } else {
        lemma_add_prefixes_wf(ps, p, p.len());
        assert(p.take(p.len() as int) =~= p);
    }
}

proof fn lemma_plan_wf(fs: Seq<PathView>)
    ensures
        plan_wf(plan_spec(fs)),
        forall|i: int| 0 <= i < fs.len() ==> plan_spec(fs).contains(#[trigger] fs[i]),
    decreases fs.len(),
{
    if fs.len() > 0 {
        let prev = plan_spec(fs.drop_last());
        lemma_plan_wf(fs.drop_last());
        lemma_add_folder_wf(prev, fs.last());
        assert forall|i: int| 0 <= i < fs.len() implies plan_spec(fs).contains(#[trigger] fs[i]) by {
            if i < fs.len() - 1 {
                assert(fs.drop_last()[i] == fs[i]);
            }
        }
    }
}

/// A copy of a path.
pub fn copy_path(p: &Vec<String>) -> (r: Vec<String>)
    ensures
        r.deep_view() == p.deep_view(),
{
    let mut r: Vec<String> = Vec::new();
    let mut i: usize = 0;
    while i < p.len()
        invariant
            i <= p.len(),
            r.deep_view() =~= p.deep_view().take(i as int),
        decreases p.len() - i,
    {
        let ghost before = r.deep_view();
        r.push(p[i].clone());
        assert(r.deep_view() =~= before.push(p[i as int]@));
        i = i + 1;
    }
    assert(p.deep_view().take(p.len() as int) =~= p.deep_view());
    r
}

/// The path of an archive folder: the root folder (no name) has the empty
/// path, a named folder the path of its name.
pub open spec fn source_path_spec(name: Option<String>, sep: char) -> PathView {
    match name {
        Some(n) => folder_path_spec(n@, sep),
        None => Seq::empty(),
    }
}

/// The paths of the archive folders named by `names`, in order.
pub open spec fn source_paths_spec(names: Seq<Option<String>>, sep: char) -> Seq<PathView> {
    names.map_values(|n: Option<String>| source_path_spec(n, sep))
}

/// The folders of an archive laid out as a list of distinct paths, each
/// listed after its parent, and the position in that list of each archive
/// folder.
#[derive(Clone, Debug, PartialEq, Eq)]
pub struct FolderPlan {
    pub paths: Vec<Vec<String>>,
    pub folder_of: Vec<usize>,
}

impl FolderPlan {
    /// The list of paths.
    pub open spec fn paths_view(&self) -> Seq<PathView> {
        self.paths.deep_view()
    }

    pub open spec fn wf(&self) -> bool {
        &&& plan_wf(self.paths_view())
        &&& forall|i: int|
            0 <= i < self.folder_of.len() ==> #[trigger] self.folder_of[i] < self.paths.len()
    }
}

/// Adds `p` to `paths` unless it is there already.
fn add_path_exec(paths: &mut Vec<Vec<String>>, p: &Vec<String>)
    ensures
        final(paths).deep_view() == add_path(old(paths).deep_view(), p.deep_view()),
{
    match find_path(paths, p) {
        Some(_) => {},
        None => {
            let ghost before = paths.deep_view();
            paths.push(copy_path(p));
            assert(paths.deep_view() =~= before.push(p.deep_view()));
        },
    }
}

/// Lays out the folders of an archive, given the on-disk name of each
/// (`None` for the root folder) and the hierarchy separator: every folder's
/// path and every ancestor path of it are listed once, ancestors first, in
/// the order in which the folders come; `folder_of[i]` is the position of
/// folder `i`'s own path.
pub fn plan_folders(names: &Vec<Option<String>>, sep: char) -> (r: FolderPlan)
    ensures
        r.wf(),
        r.paths_view() == plan_spec(source_paths_spec(names@, sep)),
        r.folder_of.len() == names.len(),
        forall|i: int|
            0 <= i < names.len() ==> r.paths_view()[#[trigger] r.folder_of[i] as int]
                == source_path_spec(names[i], sep),
{
    let ghost fs = source_paths_spec(names@, sep);
    let mut paths: Vec<Vec<String>> = Vec::new();
    let mut folder_of: Vec<usize> = Vec::new();
    let mut i: usize = 0;
    while i < names.len()
        invariant
            i <= names.len(),
            fs == source_paths_spec(names@, sep),
            paths.deep_view() == plan_spec(fs.take(i as int)),
            folder_of.len() == i,
            forall|k: int|
                0 <= k < i ==> #[trigger] folder_of[k] < paths.len() && paths.deep_view()[folder_of[k] as int]
                    == fs[k],
        decreases names.len() - i,
    {
        let ghost prev = paths.deep_view();
        let p: Vec<String> = match &names[i] {
            Some(n) => folder_path(n.as_str(), sep),
            None => Vec::new(),
        };
        assert(p.deep_view() =~= fs[i as int]);
        if p.len() == 0 {
            add_path_exec(&mut paths, &p);
        } else {
            let mut prefix: Vec<String> = Vec::new();
            let mut n: usize = 0;
            while n < p.len()
                invariant
                    n <= p.len(),
                    prefix.deep_view() =~= p.deep_view().take(n as int),
                    paths.deep_view() == add_prefixes(prev, p.deep_view(), n as nat),
                decreases p.len() - n,
            {
                let ghost before = prefix.deep_view();
                prefix.push(p[n].clone());
                assert(prefix.deep_view() =~= before.push(p[n as int]@));
                assert(prefix.deep_view() =~= p.deep_view().take(n + 1));
                add_path_exec(&mut paths, &prefix);
                n = n + 1;
            }
        }
        assert(fs.take(i + 1).drop_last() =~= fs.take(i as int));
        assert(paths.deep_view() == plan_spec(fs.take(i + 1)));
        proof {
            lemma_plan_wf(fs.take(i as int));
            lemma_add_folder_wf(prev, fs[i as int]);
        }
        let j = match find_path(&paths, &p) {
            Some(j) => j,
            None => {
                assert(false);
                0
            },
        };
        folder_of.push(j);
        i = i + 1;
    }
    assert(fs.take(names.len() as int) =~= fs);
    proof {
        lemma_plan_wf(fs);
    }
    FolderPlan { paths, folder_of }
}

/// The segments of `p` joined by `/`.
pub open spec fn join_spec(p: PathView) -> Seq<char>
    decreases p.len(),
{
    if p.len() == 0 {
        Seq::empty()
    } else if p.len() == 1 {
        p[0]
    } else {
        join_spec(p.drop_last()) + "/"@ + p.last()
    }
}

/// How a folder is named in progress and failure reports: its segments
/// joined by `/`, or `Inbox` for the root folder.
pub open spec fn label_spec(p: PathView) -> Seq<char> {
    if p.len() == 0 {
        "Inbox"@
    } else {
        join_spec(p)
    }
}

/// The name of the folder at path `p` in reports.
pub fn folder_label(p: &Vec<String>) -> (r: String)
    ensures
        r@ == label_spec(p.deep_view()),
{
    if p.len() == 0 {
        return String::from_str("Inbox");
    }
    let mut r = p[0].clone();
    let mut i: usize = 1;
    assert(p.deep_view().take(1).drop_last() =~= Seq::<Seq<char>>::empty());
    while i < p.len()
        invariant
            1 <= i <= p.len(),
            r@ == join_spec(p.deep_view().take(i as int)),
        decreases p.len() - i,
    {
        r.append("/");
        r.append(p[i].as_str());
        assert(p.deep_view().take(i as int + 1).drop_last() =~= p.deep_view().take(i as int));
        i = i + 1;
    }
    assert(p.deep_view().take(p.len() as int) =~= p.deep_view());
    r
}

/// The archive folders whose path is the one at position `k`, in order.
pub fn sources_for(plan: &FolderPlan, k: usize) -> (r: Vec<usize>)
    ensures
        forall|a: int| 0 <= a < r.len() ==> r[a] < plan.folder_of.len() && plan.folder_of[r[a] as int] == k,
        forall|a: int, b: int| 0 <= a < b < r.len() ==> r[a] < r[b],
        forall|i: int|
            0 <= i < plan.folder_of.len() && plan.folder_of[i] == k ==> r@.contains(i as usize),
{
    let mut r: Vec<usize> = Vec::new();
    let mut i: usize = 0;
    while i < plan.folder_of.len()
        invariant
            i <= plan.folder_of.len(),
            forall|a: int| 0 <= a < r.len() ==> r[a] < i && plan.folder_of[r[a] as int] == k,
            forall|a: int, b: int| 0 <= a < b < r.len() ==> r[a] < r[b],
            forall|x: int| 0 <= x < i && plan.folder_of[x] == k ==> r@.contains(x as usize),
        decreases plan.folder_of.len() - i,
    {
        if plan.folder_of[i] == k {
            let ghost before = r@;
            r.push(i);
            assert forall|x: int| 0 <= x < i + 1 && plan.folder_of[x] == k implies r@.contains(
                x as usize,
            ) by {
                if x < i {
                    let a = choose|a: int| 0 <= a < before.len() && before[a] == x as usize;
                    assert(r[a] == x as usize);
                } else {
                    assert(r[r.len() - 1] == x as usize);
                }
            }
        }
        i = i + 1;
    }
    r
}

} // verus!
