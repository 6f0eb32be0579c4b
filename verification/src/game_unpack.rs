//! The unpacker of one game installation: where its packages, index files
//! and texts lie, and the directory tree of everything the packages hold.
//!
//! The unpacker decides what is to be extracted and from where. It touches no
//! file: index files are handed to it as bytes, and an extraction is returned
//! as a list of tasks, each naming a package file, a record in it and the file
//! to write.

use crate::discovery::{is_newest_usable, select_build, usable_build, BinEntry};
use crate::game::GameLanguages;
use crate::idx::{
    idx_contents, idx_well_formed, record_views, FileRecord, FileRecordView, IdxFile,
};
use crate::query::{hits, lowercase, query_pattern, regex_valid, select_matches};
use crate::text::{
    contains_text, join_with_slash, occurs_in, path_segments, replace_all, replace_text,
    slash_join, texts,
};
use crate::tree::{inserted, DirectoryTree, TreeNode};
use crate::types::UnpackError;
use vstd::prelude::*;
use vstd::string::*;

verus! {

/// One file to extract: the package file to read, the record that says
/// where the payload lies in it, and the file to write.
#[derive(Debug)]
pub struct ExtractTask {
    pub package_file: String,
    pub output_file: String,
    pub record: FileRecord,
}

/// The value of an extraction task.
pub struct ExtractTaskView {
    pub package_file: Seq<char>,
    pub output_file: Seq<char>,
    pub record: FileRecordView,
}

impl View for ExtractTask {
    type V = ExtractTaskView;

    open spec fn view(&self) -> ExtractTaskView {
        ExtractTaskView {
            package_file: self.package_file@,
            output_file: self.output_file@,
            record: self.record@,
        }
    }
}

/// The values of a sequence of extraction tasks.
pub open spec fn task_views(tasks: Seq<ExtractTask>) -> Seq<ExtractTaskView> {
    tasks.map_values(|t: ExtractTask| t@)
}

/// The task that extracts `record` from the packages under `pkg_path` to the
/// directory `dest`.
pub open spec fn task_for(pkg_path: Seq<char>, dest: Seq<char>, record: FileRecordView)
    -> ExtractTaskView {
    ExtractTaskView {
        package_file: slash_join(pkg_path, record.pkg_name),
        output_file: slash_join(dest, record.path),
        record,
    }
}

/// The tasks that extract `records`, in order.
pub open spec fn tasks_for(pkg_path: Seq<char>, dest: Seq<char>, records: Seq<FileRecordView>)
    -> Seq<ExtractTaskView> {
    records.map_values(|r: FileRecordView| task_for(pkg_path, dest, r))
}

/// The paths of `records`, in order.
pub open spec fn paths_of(records: Seq<FileRecordView>) -> Seq<Seq<char>> {
    records.map_values(|r: FileRecordView| r.path)
}

/// The last of `records` whose path has the segments `q`, if there is one.
pub open spec fn filed(records: Seq<FileRecordView>, q: Seq<Seq<char>>) -> Option<FileRecordView>
    decreases records.len(),
{
    if records.len() == 0 {
        None
    } else if path_segments(records.last().path) == q {
        Some(records.last())
    } else {
        filed(records.drop_last(), q)
    }
}

/// Whether `q` leads to, or is, the place of one of `records`.
pub open spec fn reaches(records: Seq<FileRecordView>, q: Seq<Seq<char>>) -> bool {
    exists|i: int|
        0 <= i < records.len() && q.is_prefix_of(path_segments((#[trigger] records[i]).path))
}

/// Whether `after` is `before` with `records` filed one after the other: at
/// each place stands the last record filed there, or what stood there before;
/// the nodes are those of `before` and those that lead to a record.
pub open spec fn filled(before: TreeNode, after: TreeNode, records: Seq<FileRecordView>) -> bool {
    &&& forall|q: Seq<Seq<char>>| #[trigger]
        after.record_at(q) == match filed(records, q) {
            Some(record) => Some(record),
            None => before.record_at(q),
        }
    &&& forall|q: Seq<Seq<char>>| #[trigger]
        after.contains(q) <==> before.contains(q) || reaches(records, q)
}

/// Filing one more record extends a filling by that record.
pub proof fn lemma_filled_push(
    before: TreeNode,
    middle: TreeNode,
    after: TreeNode,
    records: Seq<FileRecordView>,
    record: FileRecordView,
)
    requires
        filled(before, middle, records),
        inserted(middle, after, path_segments(record.path), record),
    ensures
        filled(before, after, records.push(record)),
{
    let all = records.push(record);
    assert(all.drop_last() =~= records);
    assert forall|q: Seq<Seq<char>>| #[trigger]
        after.record_at(q) == match filed(all, q) {
            Some(r) => Some(r),
            None => before.record_at(q),
        } by {
        assert(middle.record_at(q) == match filed(records, q) {
            Some(r) => Some(r),
            None => before.record_at(q),
        });
    }
    assert forall|q: Seq<Seq<char>>| #[trigger]
        after.contains(q) <==> before.contains(q) || reaches(all, q) by {
        assert(middle.contains(q) <==> before.contains(q) || reaches(records, q));
        if reaches(records, q) {
            let i = choose|i: int|
                0 <= i < records.len() && q.is_prefix_of(
                    path_segments((#[trigger] records[i]).path),
                );
            assert(all[i] == records[i]);
        }
        if q.is_prefix_of(path_segments(record.path)) {
            assert(all[records.len() as int] == record);
        }
        if reaches(all, q) {
            let i = choose|i: int|
                0 <= i < all.len() && q.is_prefix_of(path_segments((#[trigger] all[i]).path));
            if i < records.len() {
                assert(records[i] == all[i]);
            }
        }
    }
}

/// Filing no record changes nothing.
pub proof fn lemma_filled_none(node: TreeNode)
    ensures
        filled(node, node, Seq::empty()),
{
}

/// Filing the same records a second time changes neither a record nor a
/// node of the tree.
pub proof fn lemma_filled_twice(
    before: TreeNode,
    once: TreeNode,
    twice: TreeNode,
    records: Seq<FileRecordView>,
)
    requires
        filled(before, once, records),
        filled(once, twice, records),
    ensures
        forall|q: Seq<Seq<char>>| #[trigger] twice.record_at(q) == once.record_at(q),
        forall|q: Seq<Seq<char>>| #[trigger] twice.contains(q) == once.contains(q),
{
}

/// The contents of a sequence of byte buffers.
pub open spec fn buffers(files: Seq<Vec<u8>>) -> Seq<Seq<u8>> {
    files.map_values(|f: Vec<u8>| f@)
}

/// The records of the well-formed ones among the first `n` index files, in
/// order. A file that is not well-formed adds nothing.
pub open spec fn records_of_files(files: Seq<Seq<u8>>, n: int) -> Seq<FileRecordView>
    decreases n,
{
    if n <= 0 {
        Seq::empty()
    } else if idx_well_formed(files[n - 1]) {
        records_of_files(files, n - 1) + idx_contents(files[n - 1]).files
    } else {
        records_of_files(files, n - 1)
    }
}

/// The unpacker of one game installation.
#[derive(Debug)]
pub struct GameUnpacker {
    /// Everything that the index files read so far describe.
    pub directory_tree: DirectoryTree,
    /// The directory of the package files.
    pub pkg_path: String,
    /// The directory of the index files.
    pub idx_path: String,
    /// The directory of the text catalogs.
    pub text_path: String,
}

impl GameUnpacker {
    /// The records that a path names: those at and below its node, or none
    /// when the tree has no such node.
    pub open spec fn records_under(&self, path: Seq<char>) -> Seq<FileRecordView> {
        match self.directory_tree.root.lookup(path_segments(path)) {
            Some(node) => node.leaves(),
            None => Seq::empty(),
        }
    }

    /// The path of the text catalog of a language.
    pub open spec fn lang_path(&self, language: GameLanguages) -> Seq<char> {
        self.text_path@ + seq!['/'] + language.code() + "/LC_MESSAGES/global.mo"@
    }

    /// An unpacker for packages under `pkg_path` and index files under
    /// `idx_path`, with an empty tree. The texts are looked for where `idx` in
    /// `idx_path` is replaced by `res/texts`.
    ///
    /// Fails with `MissingPackages` when `pkg_path` does not name a
    /// `res_packages` directory.
    pub fn manual(pkg_path: &str, idx_path: &str) -> (r: Result<GameUnpacker, UnpackError>)
        ensures
            match r {
                Ok(unpacker) => {
                    &&& occurs_in("res_packages"@, pkg_path@)
                    &&& unpacker.pkg_path@ == pkg_path@
                    &&& unpacker.idx_path@ == idx_path@
                    &&& unpacker.text_path@ == replace_all(idx_path@, "idx"@, "res/texts"@)
                    &&& unpacker.directory_tree.well_formed()
                    &&& unpacker.directory_tree.leaves() == Seq::<FileRecordView>::empty()
                    &&& forall|q: Seq<Seq<char>>| #[trigger]
                        unpacker.directory_tree.contains(q) <==> q.len() == 0
                },
                Err(e) => e == UnpackError::MissingPackages && !occurs_in(
                    "res_packages"@,
                    pkg_path@,
                ),
            },
    {
        if !contains_text(pkg_path, "res_packages") {
            return Err(UnpackError::MissingPackages);
        }
        let text_path = replace_text(idx_path, "idx", "res/texts");
        Ok(
            GameUnpacker {
                directory_tree: DirectoryTree::new(),
                pkg_path: String::from_str(pkg_path),
                idx_path: String::from_str(idx_path),
                text_path,
            },
        )
    }

    /// An unpacker for the installation at `game_path`, given whether it has a
    /// `res_packages` directory and what its `bin` directory holds. The build
    /// used is the one with the largest number that has an `idx` directory.
    ///
    /// Fails with `MissingPackages` without a `res_packages` directory, and
    /// with `NoBuild` when no entry is a usable build.
    pub fn auto(game_path: &str, has_packages: bool, entries: &Vec<BinEntry>) -> (r: Result<
        GameUnpacker,
        UnpackError,
    >)
        ensures
            match r {
                Ok(unpacker) => {
                    &&& has_packages
                    &&& exists|chosen: int|
                        {
                            &&& is_newest_usable(entries@, chosen)
                            &&& unpacker.idx_path@ == slash_join(
                                slash_join(slash_join(game_path@, "bin"@), #[trigger] entries@[chosen].name@),
                                "idx"@,
                            )
                            &&& unpacker.text_path@ == slash_join(
                                slash_join(slash_join(game_path@, "bin"@), entries@[chosen].name@),
                                "res/texts"@,
                            )
                        }
                    &&& unpacker.pkg_path@ == slash_join(game_path@, "res_packages"@)
                    &&& unpacker.directory_tree.well_formed()
                    &&& unpacker.directory_tree.leaves() == Seq::<FileRecordView>::empty()
                },
                Err(e) => if has_packages {
                    &&& e == UnpackError::NoBuild
                    &&& forall|j: int|
                        0 <= j < entries@.len() ==> usable_build(#[trigger] entries@[j]) is None
                } else {
                    e == UnpackError::MissingPackages
                },
            },
    {
        if !has_packages {
            return Err(UnpackError::MissingPackages);
        }
        match select_build(entries) {
            Some(chosen) => {
                let bin = join_with_slash(game_path, "bin");
                let build = join_with_slash(bin.as_str(), entries[chosen].name.as_str());
                Ok(
                    GameUnpacker {
                        directory_tree: DirectoryTree::new(),
                        pkg_path: join_with_slash(game_path, "res_packages"),
                        idx_path: join_with_slash(build.as_str(), "idx"),
                        text_path: join_with_slash(build.as_str(), "res/texts"),
                    },
                )
            },
            None => Err(UnpackError::NoBuild),
        }
    }

    /// The path of the text catalog of a language:
    /// `<texts>/<language>/LC_MESSAGES/global.mo`.
    pub fn get_lang_path(&self, language: &GameLanguages) -> (path: String)
        ensures
            path@ == self.lang_path(*language),
    {
        let folder = language.to_folder_string();
        let mut path = self.text_path.clone();
        path.push('/');
        path.append(folder.as_str());
        path.append("/LC_MESSAGES/global.mo");
        path
    }

    /// The tasks that extract `records` to the directory `dest`.
    pub fn plan(&self, records: &Vec<FileRecord>, dest: &str) -> (tasks: Vec<ExtractTask>)
        ensures
            task_views(tasks@) == tasks_for(self.pkg_path@, dest@, record_views(records@)),
    {
        let mut tasks: Vec<ExtractTask> = Vec::new();
        let mut i: usize = 0;
        while i < records.len()
            invariant
                i <= records@.len(),
                tasks@.len() == i,
                forall|j: int|
                    0 <= j < i ==> (#[trigger] tasks@[j])@ == task_for(
                        self.pkg_path@,
                        dest@,
                        records@[j]@,
                    ),
            decreases records@.len() - i,
        {
            let record = &records[i];
            tasks.push(
                ExtractTask {
                    package_file: join_with_slash(self.pkg_path.as_str(), record.pkg_name.as_str()),
                    output_file: join_with_slash(dest, record.path.as_str()),
                    record: record.clone(),
                },
            );
            i = i + 1;
        }
        tasks
    }

    /// Reads index files into the directory tree. Each element of
    /// `idx_files` is the content of one index file. A file that is not
    /// well-formed is passed over and the next one is read. The result tells
    /// for each file whether it was read.
    ///
    /// The records are filed in the order of the files, and within a file in
    /// the order of its table: where two records have the same path, the
    /// later one stays.
    pub fn build_directory_tree(&mut self, idx_files: &Vec<Vec<u8>>) -> (read: Vec<bool>)
        ensures
            read@.len() == idx_files@.len(),
            forall|i: int|
                0 <= i < idx_files@.len() ==> read@[i] == idx_well_formed(
                    (#[trigger] idx_files@[i])@,
                ),
            filled(
                old(self).directory_tree.root,
                final(self).directory_tree.root,
                records_of_files(buffers(idx_files@), idx_files@.len() as int),
            ),
            old(self).directory_tree.well_formed() ==> final(self).directory_tree.well_formed(),
            final(self).pkg_path == old(self).pkg_path,
            final(self).idx_path == old(self).idx_path,
            final(self).text_path == old(self).text_path,
    {
        let ghost start = self.directory_tree.root;
        let ghost files = buffers(idx_files@);
        let mut read: Vec<bool> = Vec::new();
        let mut i: usize = 0;
        proof {
            lemma_filled_none(start);
        }
        while i < idx_files.len()
            invariant
                i <= idx_files@.len(),
                files == buffers(idx_files@),
                read@.len() == i,
                forall|k: int|
                    0 <= k < i ==> read@[k] == idx_well_formed((#[trigger] idx_files@[k])@),
                filled(start, self.directory_tree.root, records_of_files(files, i as int)),
                start == old(self).directory_tree.root,
                old(self).directory_tree.well_formed() ==> self.directory_tree.well_formed(),
                self.pkg_path == old(self).pkg_path,
                self.idx_path == old(self).idx_path,
                self.text_path == old(self).text_path,
            decreases idx_files@.len() - i,
        {
            match IdxFile::parse(idx_files[i].as_slice()) {
                Ok(idx) => {
                    let ghost done = records_of_files(files, i as int);
                    let ghost fresh = idx_contents(files[i as int]).files;
                    let mut j: usize = 0;
                    while j < idx.files.len()
                        invariant
                            j <= idx.files@.len(),
                            record_views(idx.files@) == fresh,
                            filled(start, self.directory_tree.root, done + fresh.take(j as int)),
                            old(self).directory_tree.well_formed()
                                ==> self.directory_tree.well_formed(),
                            self.pkg_path == old(self).pkg_path,
                            self.idx_path == old(self).idx_path,
                            self.text_path == old(self).text_path,
                        decreases idx.files@.len() - j,
                    {
                        let ghost middle = self.directory_tree.root;
                        self.directory_tree.insert(&idx.files[j]);
                        proof {
                            lemma_filled_push(
                                start,
                                middle,
                                self.directory_tree.root,
                                done + fresh.take(j as int),
                                fresh[j as int],
                            );
                            assert((done + fresh.take(j as int)).push(fresh[j as int]) =~= done
                                + fresh.take(j + 1));
                        }
                        j = j + 1;
                    }
                    assert(fresh.take(fresh.len() as int) =~= fresh);
                    read.push(true);
                },
                Err(_) => {
                    read.push(false);
                },
            }
            i = i + 1;
        }
        read
    }

    /// What to extract for an exact path: the records at and below the node
    /// that `node_name` names. A path that names no node yields no task and is
    /// no error.
    pub fn extract_exact(&self, node_name: &str, dest: &str) -> (r: Result<
        Vec<ExtractTask>,
        UnpackError,
    >)
        ensures
            r is Ok,
            task_views(r->Ok_0@) == tasks_for(
                self.pkg_path@,
                dest@,
                self.records_under(node_name@),
            ),
    {
        match self.directory_tree.find(node_name) {
            Some(node) => {
                let records = DirectoryTree::walk_from(node);
                Ok(self.plan(&records, dest))
            },
            None => {
                let tasks: Vec<ExtractTask> = Vec::new();
                Ok(tasks)
            },
        }
    }

    /// The records of the tree that a query selects, in the order of the
    /// tree. Fails with `InvalidPattern` exactly when the query stands for no
    /// valid regular expression.
    ///
    /// The query `*` selects every record of the tree, provided that no path
    /// holds a line feed once in lower case.
    pub fn matches(&self, query: &str) -> (r: Result<Vec<FileRecord>, UnpackError>)
        ensures
            match r {
                Ok(found) => regex_valid(query_pattern(query@)) && record_views(found@) == hits(
                    query_pattern(query@),
                    self.directory_tree.leaves(),
                ),
                Err(e) => e == UnpackError::InvalidPattern && !regex_valid(query_pattern(query@)),
            },
            query@ == seq!['*'] && (forall|i: int|
                0 <= i < self.directory_tree.leaves().len() ==> !lowercase(
                    (#[trigger] self.directory_tree.leaves()[i]).path,
                ).contains('\n')) ==> r is Ok && record_views(r->Ok_0@)
                == self.directory_tree.leaves(),
    {
        let leaves = DirectoryTree::walk_from(&self.directory_tree.root);
        proof {
            let all = self.directory_tree.leaves();
            if forall|i: int|
                0 <= i < all.len() ==> !lowercase((#[trigger] all[i]).path).contains('\n') {
                assert forall|i: int| 0 <= i < leaves@.len() implies !lowercase(
                    (#[trigger] leaves@[i])@.path,
                ).contains('\n') by {
                    assert(all[i] == leaves@[i]@);
                }
            }
        }
        select_matches(query, &leaves)
    }

    /// What to extract for a query: the records that the query selects.
    pub fn extract_fuzzy(&self, query: &str, dest: &str) -> (r: Result<
        Vec<ExtractTask>,
        UnpackError,
    >)
        ensures
            match r {
                Ok(tasks) => regex_valid(query_pattern(query@)) && task_views(tasks@)
                    == tasks_for(
                    self.pkg_path@,
                    dest@,
                    hits(query_pattern(query@), self.directory_tree.leaves()),
                ),
                Err(e) => e == UnpackError::InvalidPattern && !regex_valid(query_pattern(query@)),
            },
    {
        match self.matches(query) {
            Ok(found) => Ok(self.plan(&found, dest)),
            Err(e) => Err(e),
        }
    }

    /// The paths of the records that a query selects.
    ///
    /// The query `*` yields the path of every record of the tree, provided
    /// that no path holds a line feed once in lower case.
    pub fn search(&self, query: &str) -> (r: Result<Vec<String>, UnpackError>)
        ensures
            match r {
                Ok(paths) => regex_valid(query_pattern(query@)) && texts(paths@) == paths_of(
                    hits(query_pattern(query@), self.directory_tree.leaves()),
                ),
                Err(e) => e == UnpackError::InvalidPattern && !regex_valid(query_pattern(query@)),
            },
            query@ == seq!['*'] && (forall|i: int|
                0 <= i < self.directory_tree.leaves().len() ==> !lowercase(
                    (#[trigger] self.directory_tree.leaves()[i]).path,
                ).contains('\n')) ==> r is Ok && texts(r->Ok_0@) == paths_of(
                self.directory_tree.leaves(),
            ),
    {
        match self.matches(query) {
            Ok(found) => {
                let mut paths: Vec<String> = Vec::new();
                let mut i: usize = 0;
                while i < found.len()
                    invariant
                        i <= found@.len(),
                        paths@.len() == i,
                        forall|j: int| 0 <= j < i ==> (#[trigger] paths@[j])@ == found@[j]@.path,
                    decreases found@.len() - i,
                {
                    paths.push(found[i].path.clone());
                    i = i + 1;
                }
                Ok(paths)
            },
            Err(e) => Err(e),
        }
    }
}

} // verus!
