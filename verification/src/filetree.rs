//! The tree of Hurl files that the file explorer shows: folders by name in string order,
//! then the files of each folder in string order; folders without Hurl files left out.
//! Also the root directory that file paths are resolved against, which can be set once.

use vstd::prelude::*;
use crate::text::{char_views, chars_of, eq_chars, push_all, push_str, string_from_chars};

verus! {

/// `a` comes before `b` in the order of `String`s: by characters, a prefix first.
pub open spec fn text_less(a: Seq<char>, b: Seq<char>) -> bool
    decreases a.len(),
{
    if a.len() == 0 {
        b.len() > 0
    } else if b.len() == 0 {
        false
    } else if a[0] != b[0] {
        a[0] < b[0]
    } else {
        text_less(a.drop_first(), b.drop_first())
    }
}

fn text_lt(a: &[char], b: &[char]) -> (r: bool)
    ensures
        r == text_less(a@, b@),
{
    let mut i: usize = 0;
    proof {
        assert(a@.skip(0) =~= a@);
        assert(b@.skip(0) =~= b@);
    }
    while i < a.len() && i < b.len() && a[i] == b[i]
        invariant
            i <= a@.len(),
            i <= b@.len(),
            text_less(a@, b@) == text_less(a@.skip(i as int), b@.skip(i as int)),
        decreases a.len() - i,
    {
        proof {
            assert(a@.skip(i as int).drop_first() =~= a@.skip(i + 1));
            assert(b@.skip(i as int).drop_first() =~= b@.skip(i + 1));
        }
        i = i + 1;
    }
    if i == a.len() {
        i < b.len()
    } else if i == b.len() {
        false
    } else {
        a[i] < b[i]
    }
}

/// A folder's contents as plain values.
pub struct TreeV {
    pub folders: Seq<(Seq<char>, TreeV)>,
    pub files: Seq<Seq<char>>,
}

/// The folders (with their contents) and the files found in a folder.
pub struct TreeNode {
    pub folders: Vec<(String, TreeNode)>,
    pub files: Vec<String>,
}

pub open spec fn tree_view(t: TreeNode) -> TreeV
    decreases t, 1nat,
{
    TreeV { folders: folders_view(t.folders@), files: t.files@.map_values(|f: String| f@) }
}

pub open spec fn folders_view(s: Seq<(String, TreeNode)>) -> Seq<(Seq<char>, TreeV)>
    decreases s, 0nat,
{
    if s.len() == 0 {
        seq![]
    } else {
        folders_view(s.drop_last()).push((s.last().0@, tree_view(s.last().1)))
    }
}

impl View for TreeNode {
    type V = TreeV;

    open spec fn view(&self) -> TreeV {
        tree_view(*self)
    }
}

pub open spec fn empty_tree() -> TreeV {
    TreeV { folders: seq![], files: seq![] }
}

/// Where the folder `k` is, or would go, among folders held in string order: the first
/// whose name does not come before `k`.
pub open spec fn folder_slot(fs: Seq<(Seq<char>, TreeV)>, k: Seq<char>, i: int) -> int
    decreases fs.len() - i,
{
    if i < 0 || i >= fs.len() {
        fs.len() as int
    } else if !text_less(fs[i].0, k) {
        i
    } else {
        folder_slot(fs, k, i + 1)
    }
}

/// The tree with a file added at the path `parts` (folder names, then the file name): the
/// folders on the way are found by name, or added in string order.
pub open spec fn tree_insert(t: TreeV, parts: Seq<Seq<char>>) -> TreeV
    decreases parts.len(),
{
    if parts.len() == 0 {
        t
    } else if parts.len() == 1 {
        TreeV { folders: t.folders, files: t.files.push(parts[0]) }
    } else {
        let i = folder_slot(t.folders, parts[0], 0);
        if i < t.folders.len() && t.folders[i].0 == parts[0] {
            TreeV {
                folders: t.folders.update(i, (parts[0], tree_insert(t.folders[i].1, parts.drop_first()))),
                files: t.files,
            }
        } else {
            TreeV {
                folders: t.folders.insert(i, (parts[0], tree_insert(empty_tree(), parts.drop_first()))),
                files: t.files,
            }
        }
    }
}

proof fn lemma_folder_slot(fs: Seq<(Seq<char>, TreeV)>, k: Seq<char>, i: int)
    requires
        0 <= i <= fs.len(),
    ensures
        i <= folder_slot(fs, k, i) <= fs.len(),
    decreases fs.len() - i,
{
    if i < fs.len() && text_less(fs[i].0, k) {
        lemma_folder_slot(fs, k, i + 1);
    }
}

fn find_folder_slot(folders: &Vec<(String, TreeNode)>, k: &[char]) -> (r: usize)
    ensures
        r == folder_slot(folders_view(folders@), k@, 0),
        r <= folders@.len(),
{
    let ghost fv = folders_view(folders@);
    proof {
        lemma_folders_view(folders@);
        lemma_folder_slot(fv, k@, 0);
    }
    let mut i: usize = 0;
    while i < folders.len()
        invariant
            i <= folders@.len(),
            fv == folders_view(folders@),
            fv.len() == folders@.len(),
            forall|j: int| 0 <= j < folders@.len() ==> #[trigger] fv[j].0 == folders@[j].0@,
            folder_slot(fv, k@, 0) == folder_slot(fv, k@, i as int),
        decreases folders.len() - i,
    {
        let name = chars_of(folders[i].0.as_str());
        if !text_lt(name.as_slice(), k) {
            return i;
        }
        i = i + 1;
    }
    i
}

proof fn lemma_folders_view(s: Seq<(String, TreeNode)>)
    ensures
        folders_view(s).len() == s.len(),
        forall|j: int| 0 <= j < s.len() ==> (#[trigger] folders_view(s)[j]) == (s[j].0@, tree_view(s[j].1)),
    decreases s.len(),
{
    if s.len() > 0 {
        lemma_folders_view(s.drop_last());
        assert forall|j: int| 0 <= j < s.len() implies (#[trigger] folders_view(s)[j]) == (s[j].0@, tree_view(s[j].1)) by {
            if j < s.len() - 1 {
                assert(folders_view(s)[j] == folders_view(s.drop_last())[j]);
                assert(s.drop_last()[j] == s[j]);
            }
        }
    }
}

proof fn lemma_folders_view_eq(a: Seq<(String, TreeNode)>, b: Seq<(Seq<char>, TreeV)>)
    requires
        a.len() == b.len(),
        forall|j: int| 0 <= j < a.len() ==> #[trigger] b[j] == (a[j].0@, tree_view(a[j].1)),
    ensures
        folders_view(a) == b,
{
    lemma_folders_view(a);
    assert(folders_view(a) =~= b);
}

/// A folder without folders or files.
pub fn empty_tree_node() -> (r: TreeNode)
    ensures
        r@ == empty_tree(),
{
    let r = TreeNode { folders: Vec::new(), files: Vec::new() };
    proof {
        assert(r@.files =~= seq![]);
        assert(folders_view(r.folders@) =~= seq![]);
    }
    r
}

fn insert_parts(tree: &mut TreeNode, parts: &Vec<String>, from: usize)
    requires
        from < parts@.len(),
    ensures
        final(tree)@ == tree_insert(old(tree)@, parts@.skip(from as int).map_values(|p: String| p@)),
    decreases parts@.len() - from,
{
    let ghost ps = parts@.skip(from as int).map_values(|p: String| p@);
    let ghost t0 = tree@;
    if from == parts.len() - 1 {
        let ghost before = tree.files@;
        tree.files.push(parts[from].clone());
        proof {
            assert(ps.len() == 1);
            assert(tree@.files =~= t0.files.push(ps[0]));
        }
        return;
    }
    let key = chars_of(parts[from].as_str());
    proof {
        assert(ps[0] == parts@[from as int]@);
        assert(ps.drop_first() =~= parts@.skip(from + 1).map_values(|p: String| p@));
        lemma_folders_view(tree.folders@);
    }
    let i = find_folder_slot(&tree.folders, key.as_slice());
    let found = if i < tree.folders.len() {
        let name = chars_of(tree.folders[i].0.as_str());
        eq_chars(name.as_slice(), key.as_slice())
    } else {
        false
    };
    let ghost old_folders = tree.folders@;
    if found {
        let (name, mut child) = tree.folders.remove(i);
        insert_parts(&mut child, parts, from + 1);
        let ghost new_child = child;
        tree.folders.insert(i, (name, child));
        proof {
            lemma_folders_view_eq(
                tree.folders@,
                folders_view(old_folders).update(i as int, (ps[0], tree_view(new_child))),
            );
        }
    } else {
        let mut child = empty_tree_node();
        insert_parts(&mut child, parts, from + 1);
        let ghost new_child = child;
        tree.folders.insert(i, (parts[from].clone(), child));
        proof {
            lemma_folders_view_eq(
                tree.folders@,
                folders_view(old_folders).insert(i as int, (ps[0], tree_view(new_child))),
            );
        }
    }
}

/// Adds a file at the path `parts` (folder names, then the file name); an empty path adds
/// nothing.
pub fn insert_file(tree: &mut TreeNode, parts: &Vec<String>)
    ensures
        final(tree)@ == tree_insert(old(tree)@, parts@.map_values(|p: String| p@)),
{
    if parts.len() == 0 {
        proof {
            assert(parts@.map_values(|p: String| p@) =~= seq![]);
        }
        return;
    }
    insert_parts(tree, parts, 0);
    proof {
        assert(parts@.skip(0) =~= parts@);
    }
}

/// `x` put into names held in string order, after those that do not come after it.
pub open spec fn insert_sorted(s: Seq<Seq<char>>, x: Seq<char>) -> Seq<Seq<char>>
    decreases s.len(),
{
    if s.len() == 0 {
        seq![x]
    } else if text_less(x, s.last()) {
        insert_sorted(s.drop_last(), x).push(s.last())
    } else {
        s.push(x)
    }
}

/// The names in string order.
pub open spec fn sorted_names(s: Seq<Seq<char>>) -> Seq<Seq<char>>
    decreases s.len(),
{
    if s.len() == 0 {
        seq![]
    } else {
        insert_sorted(sorted_names(s.drop_last()), s.last())
    }
}

fn insert_name_sorted(v: &mut Vec<Vec<char>>, x: Vec<char>)
    ensures
        char_views(final(v)@) == insert_sorted(char_views(old(v)@), x@),
    decreases old(v)@.len(),
{
    if v.len() == 0 {
        v.push(x);
        proof {
            assert(char_views(v@) =~= seq![x@]);
        }
        return;
    }
    let n = v.len();
    let ghost before = char_views(v@);
    if text_lt(x.as_slice(), v[n - 1].as_slice()) {
        let last = v.pop().unwrap();
        proof {
            assert(char_views(v@) =~= before.drop_last());
            assert(before.last() == last@);
        }
        insert_name_sorted(v, x);
        let ghost mid = char_views(v@);
        v.push(last);
        proof {
            assert(char_views(v@) =~= mid.push(last@));
        }
    } else {
        v.push(x);
        proof {
            assert(char_views(v@) =~= before.push(x@));
        }
    }
}

/// The file names in string order.
fn sort_names(files: &Vec<String>) -> (r: Vec<Vec<char>>)
    ensures
        char_views(r@) == sorted_names(files@.map_values(|f: String| f@)),
{
    let ghost fv = files@.map_values(|f: String| f@);
    let mut r: Vec<Vec<char>> = Vec::new();
    let mut i: usize = 0;
    proof {
        assert(char_views(r@) =~= sorted_names(fv.take(0)));
    }
    while i < files.len()
        invariant
            i <= files@.len(),
            fv == files@.map_values(|f: String| f@),
            char_views(r@) == sorted_names(fv.take(i as int)),
        decreases files.len() - i,
    {
        let name = chars_of(files[i].as_str());
        insert_name_sorted(&mut r, name);
        proof {
            assert(fv.take(i + 1).drop_last() =~= fv.take(i as int));
            assert(fv.take(i + 1).last() == files@[i as int]@);
        }
        i = i + 1;
    }
    proof {
        assert(fv.take(files@.len() as int) =~= fv);
    }
    r
}

/// A folder or a file of the tree that the file explorer shows.
pub struct FileNode {
    pub name: String,
    pub relative_path: String,
    pub node_type: String,
    pub children: Option<Vec<FileNode>>,
}

pub struct FileNodeV {
    pub name: Seq<char>,
    pub relative_path: Seq<char>,
    pub node_type: Seq<char>,
    pub children: Option<Seq<FileNodeV>>,
}

pub open spec fn file_node_view(n: FileNode) -> FileNodeV
    decreases n, 1nat,
{
    FileNodeV {
        name: n.name@,
        relative_path: n.relative_path@,
        node_type: n.node_type@,
        children: match n.children {
            Some(v) => Some(file_nodes_view(v@)),
            None => None,
        },
    }
}

pub open spec fn file_nodes_view(s: Seq<FileNode>) -> Seq<FileNodeV>
    decreases s, 0nat,
{
    if s.len() == 0 {
        seq![]
    } else {
        file_nodes_view(s.drop_last()).push(file_node_view(s.last()))
    }
}

impl View for FileNode {
    type V = FileNodeV;

    open spec fn view(&self) -> FileNodeV {
        file_node_view(*self)
    }
}

/// The path of `name` inside the folder at `base` (the root when `base` is empty).
pub open spec fn child_path(base: Seq<char>, name: Seq<char>) -> Seq<char> {
    if base.len() == 0 {
        name
    } else {
        base + "/"@ + name
    }
}

/// The nodes of a folder at `base`: its folders that hold files (in the order held), then
/// its files in string order.
pub open spec fn children_of(t: TreeV, base: Seq<char>) -> Seq<FileNodeV>
    decreases t, 1nat,
{
    folder_children(t.folders, base) + file_children(sorted_names(t.files), base)
}

/// The nodes of the folders that hold files.
pub open spec fn folder_children(fs: Seq<(Seq<char>, TreeV)>, base: Seq<char>) -> Seq<FileNodeV>
    decreases fs, 0nat,
{
    if fs.len() == 0 {
        seq![]
    } else {
        let prev = folder_children(fs.drop_last(), base);
        let name = fs.last().0;
        let rel = child_path(base, name);
        let ch = children_of(fs.last().1, rel);
        if ch.len() > 0 {
            prev.push(FileNodeV { name, relative_path: rel, node_type: "folder"@, children: Some(ch) })
        } else {
            prev
        }
    }
}

/// The nodes of the files named.
pub open spec fn file_children(names: Seq<Seq<char>>, base: Seq<char>) -> Seq<FileNodeV>
    decreases names.len(),
{
    if names.len() == 0 {
        seq![]
    } else {
        file_children(names.drop_last(), base).push(
            FileNodeV {
                name: names.last(),
                relative_path: child_path(base, names.last()),
                node_type: "file"@,
                children: None,
            },
        )
    }
}

fn child_path_string(base: &[char], name: &[char]) -> (r: String)
    ensures
        r@ == child_path(base@, name@),
{
    let mut out: Vec<char> = Vec::new();
    if base.len() != 0 {
        push_all(&mut out, base);
        push_str(&mut out, "/");
    }
    push_all(&mut out, name);
    string_from_chars(out.as_slice())
}

proof fn lemma_file_nodes_view_push(s: Seq<FileNode>, n: FileNode)
    ensures
        file_nodes_view(s.push(n)) == file_nodes_view(s).push(n@),
{
    assert(s.push(n).drop_last() =~= s);
}

/// The nodes of the folder `tree` at `base` (see `children_of`).
pub fn build_children(tree: &TreeNode, base: &[char]) -> (r: Vec<FileNode>)
    ensures
        file_nodes_view(r@) == children_of(tree@, base@),
    decreases tree, 1nat,
{
    let mut out: Vec<FileNode> = Vec::new();
    let ghost fv = folders_view(tree.folders@);
    proof {
        lemma_folders_view(tree.folders@);
        assert(file_nodes_view(out@) =~= folder_children(fv.take(0), base@));
    }
    let mut i: usize = 0;
    while i < tree.folders.len()
        invariant
            i <= tree.folders@.len(),
            fv == folders_view(tree.folders@),
            fv.len() == tree.folders@.len(),
            forall|j: int| 0 <= j < tree.folders@.len() ==> (#[trigger] fv[j]) == (tree.folders@[j].0@, tree_view(tree.folders@[j].1)),
            file_nodes_view(out@) == folder_children(fv.take(i as int), base@),
        decreases tree.folders.len() - i,
    {
        let name = chars_of(tree.folders[i].0.as_str());
        let rel = child_path_string(base, name.as_slice());
        let rel_chars = chars_of(rel.as_str());
        proof {
            assert(decreases_to!(*tree => tree.folders@[i as int].1));
        }
        let children = build_children(&tree.folders[i].1, rel_chars.as_slice());
        let ghost before = out@;
        proof {
            let t = fv.take(i + 1);
            assert(t.drop_last() =~= fv.take(i as int));
            assert(t.last() == fv[i as int]);
        }
        if children.len() > 0 {
            let node = FileNode {
                name: tree.folders[i].0.clone(),
                relative_path: rel,
                node_type: "folder".to_owned(),
                children: Some(children),
            };
            proof {
                reveal_strlit("folder");
                lemma_file_nodes_view_push(before, node);
                assert(file_nodes_view(children@).len() == children@.len()) by {
                    lemma_file_nodes_view_len(children@);
                }
            }
            out.push(node);
        } else {
            proof {
                lemma_file_nodes_view_len(children@);
            }
        }
        i = i + 1;
    }
    proof {
        assert(fv.take(tree.folders@.len() as int) =~= fv);
    }
    let names = sort_names(&tree.files);
    let ghost sv = char_views(names@);
    let ghost folder_part = out@;
    let mut j: usize = 0;
    proof {
        assert(file_nodes_view(out@) =~= file_nodes_view(folder_part) + file_children(sv.take(0), base@));
    }
    while j < names.len()
        invariant
            j <= names@.len(),
            sv == char_views(names@),
            file_nodes_view(out@) == file_nodes_view(folder_part) + file_children(sv.take(j as int), base@),
        decreases names.len() - j,
    {
        let rel = child_path_string(base, names[j].as_slice());
        let node = FileNode {
            name: string_from_chars(names[j].as_slice()),
            relative_path: rel,
            node_type: "file".to_owned(),
            children: None,
        };
        let ghost before = out@;
        proof {
            reveal_strlit("file");
            lemma_file_nodes_view_push(before, node);
            let t = sv.take(j + 1);
            assert(t.drop_last() =~= sv.take(j as int));
            assert(t.last() == names@[j as int]@);
        }
        out.push(node);
        j = j + 1;
    }
    proof {
        assert(sv.take(names@.len() as int) =~= sv);
    }
    out
}

proof fn lemma_file_nodes_view_len(s: Seq<FileNode>)
    ensures
        file_nodes_view(s).len() == s.len(),
    decreases s.len(),
{
    if s.len() > 0 {
        lemma_file_nodes_view_len(s.drop_last());
    }
}

/// The tree of the Hurl files found under a directory named `root_name`, each given by
/// its path from that directory: a folder node with the children of the tree, or an error
/// where no file was found.
pub open spec fn scanned_tree(root_name: Seq<char>, files: Seq<Seq<Seq<char>>>) -> Result<FileNodeV, Seq<char>> {
    let children = children_of(tree_of_files(files), seq![]);
    if children.len() == 0 {
        Err("No .hurl files found in directory"@)
    } else {
        Ok(FileNodeV { name: root_name, relative_path: seq![], node_type: "folder"@, children: Some(children) })
    }
}

/// The tree that adding the files in turn to an empty folder gives.
pub open spec fn tree_of_files(files: Seq<Seq<Seq<char>>>) -> TreeV
    decreases files.len(),
{
    if files.len() == 0 {
        empty_tree()
    } else {
        tree_insert(tree_of_files(files.drop_last()), files.last())
    }
}

pub open spec fn paths_view(files: Seq<Vec<String>>) -> Seq<Seq<Seq<char>>> {
    files.map_values(|p: Vec<String>| p@.map_values(|s: String| s@))
}

/// The tree of the Hurl files found under a directory (see `scanned_tree`).
pub fn file_tree(root_name: &str, files: &Vec<Vec<String>>) -> (r: Result<FileNode, String>)
    ensures
        match r {
            Ok(n) => scanned_tree(root_name@, paths_view(files@)) == Ok::<FileNodeV, Seq<char>>(n@),
            Err(e) => scanned_tree(root_name@, paths_view(files@)) == Err::<FileNodeV, Seq<char>>(e@),
        },
{
    let ghost pv = paths_view(files@);
    let mut tree = empty_tree_node();
    let mut i: usize = 0;
    while i < files.len()
        invariant
            i <= files@.len(),
            pv == paths_view(files@),
            tree@ == tree_of_files(pv.take(i as int)),
        decreases files.len() - i,
    {
        insert_file(&mut tree, &files[i]);
        proof {
            let t = pv.take(i + 1);
            assert(t.drop_last() =~= pv.take(i as int));
            assert(t.last() == files@[i as int]@.map_values(|s: String| s@));
        }
        i = i + 1;
    }
    proof {
        assert(pv.take(files@.len() as int) =~= pv);
    }
    let no_base: Vec<char> = Vec::new();
    let children = build_children(&tree, no_base.as_slice());
    proof {
        lemma_file_nodes_view_len(children@);
        assert(no_base@ =~= seq![]);
    }
    if children.len() == 0 {
        proof {
            reveal_strlit("No .hurl files found in directory");
        }
        return Err("No .hurl files found in directory".to_owned());
    }
    let node = FileNode {
        name: root_name.to_owned(),
        relative_path: String::new(),
        node_type: "folder".to_owned(),
        children: Some(children),
    };
    proof {
        reveal_strlit("folder");
    }
    Ok(node)
}

/// The root directory that the files asked for are resolved against, as its path
/// components; it can be set once.
pub struct FileRoot {
    root: Option<Vec<String>>,
}

impl View for FileRoot {
    type V = Option<Seq<Seq<char>>>;

    closed spec fn view(&self) -> Option<Seq<Seq<char>>> {
        match self.root {
            Some(r) => Some(r@.map_values(|s: String| s@)),
            None => None,
        }
    }
}

/// The error where no root is set.
pub open spec fn no_root_error() -> Seq<char> {
    "No root path set. Open a file explorer first."@
}

/// The error for a path that leaves the root.
pub open spec fn outside_root_error() -> Seq<char> {
    "Path is outside the root directory"@
}

impl FileRoot {
    /// No root set yet.
    pub fn new() -> (r: FileRoot)
        ensures
            r@ is None,
    {
        FileRoot { root: None }
    }

    /// Sets the root, unless it is set already.
    pub fn set_current_root(&mut self, root: Vec<String>)
        ensures
            final(self)@ == (match old(self)@ {
                Some(r) => Some(r),
                None => Some(root@.map_values(|s: String| s@)),
            }),
    {
        if self.root.is_none() {
            self.root = Some(root);
        }
    }

    /// The root, or an error where none is set.
    pub fn current_root(&self) -> (r: Result<Vec<String>, String>)
        ensures
            match r {
                Ok(v) => self@ == Some(v@.map_values(|s: String| s@)),
                Err(e) => self@ is None && e@ == no_root_error(),
            },
    {
        match &self.root {
            Some(r) => Ok(copy_strings(r)),
            None => {
                proof {
                    reveal_strlit("No root path set. Open a file explorer first.");
                }
                Err("No root path set. Open a file explorer first.".to_owned())
            },
        }
    }
}

fn copy_strings(v: &Vec<String>) -> (r: Vec<String>)
    ensures
        r@.map_values(|s: String| s@) == v@.map_values(|s: String| s@),
{
    let mut out: Vec<String> = Vec::new();
    let mut i: usize = 0;
    while i < v.len()
        invariant
            i <= v@.len(),
            out@.len() == i,
            forall|k: int| 0 <= k < i ==> #[trigger] out@[k]@ == v@[k]@,
        decreases v.len() - i,
    {
        out.push(v[i].clone());
        i = i + 1;
    }
    proof {
        assert(out@.map_values(|s: String| s@) =~= v@.map_values(|s: String| s@));
    }
    out
}

/// A path, as its components, lies within the root: the root's components begin it.
pub open spec fn within_root(root: Seq<Seq<char>>, path: Seq<Seq<char>>) -> bool {
    root.len() <= path.len() && path.take(root.len() as int) == root
}

/// Refuses a resolved path that lies outside the root.
pub fn check_within_root(root: &Vec<String>, path: &Vec<String>) -> (r: Result<(), String>)
    ensures
        r is Ok <==> within_root(root@.map_values(|s: String| s@), path@.map_values(|s: String| s@)),
        r matches Err(e) ==> e@ == outside_root_error(),
{
    let ghost rv = root@.map_values(|s: String| s@);
    let ghost pv = path@.map_values(|s: String| s@);
    if root.len() <= path.len() {
        let mut i: usize = 0;
        while i < root.len()
            invariant
                i <= root@.len() <= path@.len(),
                rv == root@.map_values(|s: String| s@),
                pv == path@.map_values(|s: String| s@),
                forall|k: int| 0 <= k < i ==> rv[k] == pv[k],
            decreases root.len() - i,
        {
            let a = chars_of(root[i].as_str());
            let b = chars_of(path[i].as_str());
            if !eq_chars(a.as_slice(), b.as_slice()) {
                proof {
                    assert(pv.take(rv.len() as int)[i as int] != rv[i as int]);
                }
                proof {
                    reveal_strlit("Path is outside the root directory");
                }
                return Err("Path is outside the root directory".to_owned());
            }
            i = i + 1;
        }
        proof {
            assert(pv.take(rv.len() as int) =~= rv);
        }
        Ok(())
    } else {
        proof {
            reveal_strlit("Path is outside the root directory");
        }
        Err("Path is outside the root directory".to_owned())
    }
}

proof fn lemma_text_less_irreflexive(a: Seq<char>)
    ensures
        !text_less(a, a),
    decreases a.len(),
{
    if a.len() > 0 {
        lemma_text_less_irreflexive(a.drop_first());
    }
}

proof fn lemma_text_less_transitive(a: Seq<char>, b: Seq<char>, c: Seq<char>)
    requires
        text_less(a, b),
        text_less(b, c),
    ensures
        text_less(a, c),
    decreases a.len(),
{
    if a.len() > 0 && b.len() > 0 && c.len() > 0 && a[0] == b[0] && b[0] == c[0] {
        lemma_text_less_transitive(a.drop_first(), b.drop_first(), c.drop_first());
    }
}

proof fn lemma_text_less_total(a: Seq<char>, b: Seq<char>)
    ensures
        a == b || text_less(a, b) || text_less(b, a),
    decreases a.len(),
{
    if a.len() > 0 && b.len() > 0 && a[0] == b[0] {
        lemma_text_less_total(a.drop_first(), b.drop_first());
        if a.drop_first() == b.drop_first() {
            assert(a =~= seq![a[0]] + a.drop_first());
            assert(b =~= seq![b[0]] + b.drop_first());
        }
    } else if a.len() == 0 && b.len() == 0 {
        assert(a =~= b);
    }
}

/// Names in string order: none comes after a later one.
pub open spec fn names_in_order(s: Seq<Seq<char>>) -> bool {
    forall|i: int, j: int| 0 <= i < j < s.len() ==> !text_less(s[j], s[i])
}

proof fn lemma_insert_sorted(s: Seq<Seq<char>>, x: Seq<char>)
    requires
        names_in_order(s),
    ensures
        names_in_order(insert_sorted(s, x)),
        insert_sorted(s, x).to_multiset() == s.to_multiset().insert(x),
    decreases s.len(),
{
    if s.len() == 0 {
        assert(insert_sorted(s, x) =~= seq![x]);
        assert(seq![x].to_multiset() =~= s.to_multiset().insert(x)) by {
            broadcast use vstd::seq_lib::group_to_multiset_ensures;
            assert(seq![x] =~= s.push(x));
        }
    } else if text_less(x, s.last()) {
        let rest = s.drop_last();
        lemma_insert_sorted(rest, x);
        let r = insert_sorted(rest, x);
        let out = r.push(s.last());
        assert(out.to_multiset() =~= s.to_multiset().insert(x)) by {
            broadcast use vstd::seq_lib::group_to_multiset_ensures;
            assert(s =~= rest.push(s.last()));
        }
        assert forall|i: int, j: int| 0 <= i < j < out.len() implies !text_less(out[j], out[i]) by {
            if j == out.len() - 1 {
                let y = out[i];
                assert(r.to_multiset().count(y) > 0) by {
                    broadcast use vstd::seq_lib::group_to_multiset_ensures;
                    assert(r.contains(y)) by { assert(r[i] == y); }
                }
                assert(rest.to_multiset().insert(x).count(y) > 0);
                if y != x {
                    assert(rest.to_multiset().count(y) > 0);
                    assert(rest.contains(y)) by {
                        broadcast use vstd::seq_lib::group_to_multiset_ensures;
                    }
                    let k = choose|k: int| 0 <= k < rest.len() && rest[k] == y;
                    assert(s[k] == y);
                    assert(!text_less(s.last(), s[k]));
                } else {
                    if text_less(s.last(), x) {
                        lemma_text_less_transitive(x, s.last(), x);
                        lemma_text_less_irreflexive(x);
                    }
                }
            } else {
                assert(out[i] == r[i] && out[j] == r[j]);
            }
        }
    } else {
        let out = s.push(x);
        assert(out.to_multiset() =~= s.to_multiset().insert(x)) by {
            broadcast use vstd::seq_lib::group_to_multiset_ensures;
        }
        assert forall|i: int, j: int| 0 <= i < j < out.len() implies !text_less(out[j], out[i]) by {
            if j == out.len() - 1 && i < s.len() {
                let last = s.last();
                if text_less(x, s[i]) && i < s.len() - 1 {
                    assert(!text_less(last, s[i]));
                    lemma_text_less_total(last, s[i]);
                    if last != s[i] {
                        lemma_text_less_transitive(x, s[i], last);
                    }
                }
            }
        }
    }
}

/// The files of a folder are listed in string order, each as often as it was found.
pub proof fn lemma_sorted_names(s: Seq<Seq<char>>)
    ensures
        names_in_order(sorted_names(s)),
        sorted_names(s).to_multiset() == s.to_multiset(),
    decreases s.len(),
{
    if s.len() == 0 {
        assert(sorted_names(s).to_multiset() =~= s.to_multiset()) by {
            broadcast use vstd::seq_lib::group_to_multiset_ensures;
        }
    } else {
        lemma_sorted_names(s.drop_last());
        lemma_insert_sorted(sorted_names(s.drop_last()), s.last());
        assert(s.to_multiset() =~= s.drop_last().to_multiset().insert(s.last())) by {
            broadcast use vstd::seq_lib::group_to_multiset_ensures;
            assert(s =~= s.drop_last().push(s.last()));
        }
    }
}

/// Folder names in strictly increasing string order.
pub open spec fn folder_names_in_order(fs: Seq<(Seq<char>, TreeV)>) -> bool {
    forall|i: int, j: int| 0 <= i < j < fs.len() ==> text_less(fs[i].0, fs[j].0)
}

/// Every folder of the tree holds its folders in strictly increasing name order.
pub open spec fn ordered_tree(t: TreeV) -> bool
    decreases t, 1nat,
{
    folder_names_in_order(t.folders) && ordered_folders(t.folders)
}

pub open spec fn ordered_folders(fs: Seq<(Seq<char>, TreeV)>) -> bool
    decreases fs, 0nat,
{
    if fs.len() == 0 {
        true
    } else {
        ordered_folders(fs.drop_last()) && ordered_tree(fs.last().1)
    }
}

proof fn lemma_ordered_folders_index(fs: Seq<(Seq<char>, TreeV)>, i: int)
    requires
        ordered_folders(fs),
        0 <= i < fs.len(),
    ensures
        ordered_tree(fs[i].1),
    decreases fs.len(),
{
    if i < fs.len() - 1 {
        lemma_ordered_folders_index(fs.drop_last(), i);
        assert(fs.drop_last()[i] == fs[i]);
    }
}

proof fn lemma_ordered_folders_from(fs: Seq<(Seq<char>, TreeV)>)
    requires
        forall|i: int| 0 <= i < fs.len() ==> ordered_tree(#[trigger] fs[i].1),
    ensures
        ordered_folders(fs),
    decreases fs.len(),
{
    if fs.len() > 0 {
        let d = fs.drop_last();
        assert forall|i: int| 0 <= i < d.len() implies ordered_tree(#[trigger] d[i].1) by {
            assert(d[i] == fs[i]);
        }
        lemma_ordered_folders_from(d);
        assert(ordered_tree(fs[fs.len() - 1].1));
    }
}

proof fn lemma_folder_slot_bounds(fs: Seq<(Seq<char>, TreeV)>, k: Seq<char>, i: int)
    requires
        0 <= i <= fs.len(),
    ensures
        forall|j: int| i <= j < folder_slot(fs, k, i) ==> text_less(#[trigger] fs[j].0, k),
        folder_slot(fs, k, i) < fs.len() ==> !text_less(fs[folder_slot(fs, k, i)].0, k),
        i <= folder_slot(fs, k, i) <= fs.len(),
    decreases fs.len() - i,
{
    if i < fs.len() && text_less(fs[i].0, k) {
        lemma_folder_slot_bounds(fs, k, i + 1);
    }
}

/// Adding a file keeps every folder's folders in strictly increasing name order, as a map
/// ordered by name holds them.
pub proof fn lemma_tree_insert_ordered(t: TreeV, parts: Seq<Seq<char>>)
    requires
        ordered_tree(t),
    ensures
        ordered_tree(tree_insert(t, parts)),
    decreases parts.len(),
{
    if parts.len() >= 2 {
        let fs = t.folders;
        let k = parts[0];
        let i = folder_slot(fs, k, 0);
        lemma_folder_slot_bounds(fs, k, 0);
        if i < fs.len() && fs[i].0 == k {
            lemma_ordered_folders_index(fs, i);
            lemma_tree_insert_ordered(fs[i].1, parts.drop_first());
            let nfs = fs.update(i, (k, tree_insert(fs[i].1, parts.drop_first())));
            assert forall|j: int| 0 <= j < nfs.len() implies ordered_tree(#[trigger] nfs[j].1) by {
                if j != i {
                    lemma_ordered_folders_index(fs, j);
                }
            }
            lemma_ordered_folders_from(nfs);
            assert forall|a: int, b: int| 0 <= a < b < nfs.len() implies text_less(nfs[a].0, nfs[b].0) by {
                assert(nfs[a].0 == fs[a].0 && nfs[b].0 == fs[b].0);
            }
        } else {
            lemma_tree_insert_ordered(empty_tree(), parts.drop_first());
            let nt = tree_insert(empty_tree(), parts.drop_first());
            let nfs = fs.insert(i, (k, nt));
            assert forall|j: int| 0 <= j < nfs.len() implies ordered_tree(#[trigger] nfs[j].1) by {
                if j < i {
                    lemma_ordered_folders_index(fs, j);
                } else if j > i {
                    lemma_ordered_folders_index(fs, j - 1);
                }
            }
            lemma_ordered_folders_from(nfs);
            if i < fs.len() {
                lemma_text_less_total(k, fs[i].0);
            }
            assert forall|a: int, b: int| 0 <= a < b < nfs.len() implies text_less(nfs[a].0, nfs[b].0) by {
                if b < i {
                } else if a < i && b == i {
                } else if a < i && b > i {
                    assert(text_less(fs[a].0, k));
                    if i < fs.len() {
                        assert(text_less(k, fs[i].0));
                        if b - 1 > i {
                            lemma_text_less_transitive(k, fs[i].0, fs[b - 1].0);
                        }
                        lemma_text_less_transitive(fs[a].0, k, fs[b - 1].0);
                    }
                } else if a == i {
                    assert(text_less(k, fs[i].0));
                    if b - 1 > i {
                        lemma_text_less_transitive(k, fs[i].0, fs[b - 1].0);
                    }
                } else {
                    assert(nfs[a].0 == fs[a - 1].0 && nfs[b].0 == fs[b - 1].0);
                }
            }
        }
    }
}

/// The tree built from the files found holds every folder's folders in name order.
pub proof fn lemma_tree_of_files_ordered(files: Seq<Seq<Seq<char>>>)
    ensures
        ordered_tree(tree_of_files(files)),
    decreases files.len(),
{
    if files.len() == 0 {
        assert(ordered_folders(empty_tree().folders));
    } else {
        lemma_tree_of_files_ordered(files.drop_last());
        lemma_tree_insert_ordered(tree_of_files(files.drop_last()), files.last());
    }
}

} // verus!
