//! A cursor into the directory tree of an unpacker, moved one segment at a
//! time. Every query is resolved against the tree when it is made, so a
//! cursor may point at a place that the tree does not have.

use crate::game_unpack::{task_views, tasks_for, ExtractTask, GameUnpacker};
use crate::idx::FileRecordView;
use crate::text::{borrowed_texts, join_names, join_path, join_with_slash, slash_join, texts};
use crate::tree::{child_names, TreeNode};
use crate::types::UnpackError;
use vstd::prelude::*;
use vstd::string::*;

verus! {

/// A position in the directory tree of an unpacker.
#[derive(Debug)]
pub struct DirectoryBrowser<'a> {
    /// The unpacker whose tree is browsed.
    pub unpacker: &'a GameUnpacker,
    /// The segments from the root to the current position.
    pub position: Vec<String>,
}

impl<'a> DirectoryBrowser<'a> {
    /// The node that the browser points at, if the tree has it.
    pub open spec fn node(&self) -> Option<TreeNode> {
        self.unpacker.directory_tree.root.lookup(texts(self.position@))
    }

    /// The path of the current position.
    pub open spec fn path(&self) -> Seq<char> {
        join_path(texts(self.position@))
    }

    /// A browser at the root of the tree of `unpacker`.
    pub fn new(unpacker: &'a GameUnpacker) -> (browser: DirectoryBrowser<'a>)
        ensures
            browser.unpacker == unpacker,
            browser.position@.len() == 0,
    {
        DirectoryBrowser { unpacker, position: Vec::new() }
    }

    /// Steps into the child named `path`. The step is made whether or not the
    /// tree has such a child.
    pub fn navigate_to(&mut self, path: &str) -> (r: &Self)
        ensures
            final(self).unpacker == old(self).unpacker,
            texts(final(self).position@) == texts(old(self).position@).push(path@),
            *r == *final(self),
    {
        self.position.push(String::from_str(path));
        self
    }

    /// Steps back to the parent. At the root nothing changes.
    pub fn go_back(&mut self) -> (r: &Self)
        ensures
            final(self).unpacker == old(self).unpacker,
            final(self).position@ == if old(self).position@.len() > 0 {
                old(self).position@.drop_last()
            } else {
                old(self).position@
            },
            *r == *final(self),
    {
        self.position.pop();
        self
    }

    /// Goes back to the root.
    pub fn reset(&mut self) -> (r: &Self)
        ensures
            final(self).unpacker == old(self).unpacker,
            final(self).position@.len() == 0,
            *r == *final(self),
    {
        self.position.clear();
        self
    }

    /// The node that the browser points at, if the tree has it.
    pub fn current_node(&self) -> (r: Option<&TreeNode>)
        ensures
            match r {
                Some(node) => self.node() == Some(*node),
                None => self.node() is None,
            },
    {
        self.unpacker.directory_tree.goto(&self.position)
    }

    /// The names of the files at the current position: the children that
    /// hold a record. Empty where the tree has no such position.
    pub fn file_list(&self) -> (names: Vec<&String>)
        ensures
            borrowed_texts(names@) == match self.node() {
                Some(node) => child_names(node.children@, true, node.children@.len() as int),
                None => Seq::empty(),
            },
    {
        match self.current_node() {
            None => {
                let names: Vec<&String> = Vec::new();
                names
            },
            Some(node) => node.files(),
        }
    }

    /// The names of the directories at the current position: the children
    /// that hold no record. Empty where the tree has no such position.
    pub fn directory_list(&self) -> (names: Vec<&String>)
        ensures
            borrowed_texts(names@) == match self.node() {
                Some(node) => child_names(node.children@, false, node.children@.len() as int),
                None => Seq::empty(),
            },
    {
        match self.current_node() {
            None => {
                let names: Vec<&String> = Vec::new();
                names
            },
            Some(node) => node.directories(),
        }
    }

    /// What to extract for `path`, taken from the current position: a file
    /// or a directory with all it holds. Nothing where the tree does not have
    /// the current position, or has nothing at `path` below it.
    pub fn unpack(&self, path: &str, dest: &str) -> (r: Result<Vec<ExtractTask>, UnpackError>)
        ensures
            r is Ok,
            task_views(r->Ok_0@) == tasks_for(
                self.unpacker.pkg_path@,
                dest@,
                if self.node() is Some {
                    self.unpacker.records_under(slash_join(self.path(), path@))
                } else {
                    Seq::empty()
                },
            ),
    {
        if self.current_node().is_some() {
            let here = join_names(&self.position);
            let unpack_path = join_with_slash(here.as_str(), path);
            self.unpacker.extract_exact(unpack_path.as_str(), dest)
        } else {
            let tasks: Vec<ExtractTask> = Vec::new();
            Ok(tasks)
        }
    }

    /// What to extract for the current position: the file or the directory
    /// there, with all it holds. Nothing where the tree does not have the
    /// position.
    pub fn unpack_current(&self, dest: &str) -> (r: Result<Vec<ExtractTask>, UnpackError>)
        ensures
            r is Ok,
            task_views(r->Ok_0@) == tasks_for(
                self.unpacker.pkg_path@,
                dest@,
                if self.node() is Some {
                    self.unpacker.records_under(self.path())
                } else {
                    Seq::empty()
                },
            ),
    {
        if self.current_node().is_some() {
            let unpack_path = join_names(&self.position);
            self.unpacker.extract_exact(unpack_path.as_str(), dest)
        } else {
            let tasks: Vec<ExtractTask> = Vec::new();
            Ok(tasks)
        }
    }

    /// Checks that the tree has the current position. Fails with
    /// `UnknownPath` exactly when it has not.
    pub fn validate_current(&self) -> (r: Result<(), UnpackError>)
        ensures
            match r {
                Ok(_) => self.node() is Some,
                Err(e) => e == UnpackError::UnknownPath && self.node() is None,
            },
    {
        if self.current_node().is_none() {
            return Err(UnpackError::UnknownPath);
        }
        Ok(())
    }
}

} // verus!
