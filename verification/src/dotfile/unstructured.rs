//! A dotfile whose content is a fixed run of bytes.

use super::{is_outcome, Applied, ApplyError, MergeError};
use vstd::prelude::*;
use vstd::string::*;
use vstd::utf8::*;

verus! {

/// The mode of a file that no caller chose one for: `rw-r--r--`.
pub const DEFAULT_MODE: u32 = 0o644;

/// A file that is written byte for byte as declared.
#[derive(Debug)]
pub struct Unstructured {
    content: Vec<u8>,
    permissions: u32,
}

/// What an [`Unstructured`] declares: the bytes of the file and its mode bits.
pub struct UnstructuredView {
    pub content: Seq<u8>,
    pub permissions: u32,
}

impl View for Unstructured {
    type V = UnstructuredView;

    closed spec fn view(&self) -> UnstructuredView {
        UnstructuredView { content: self.content@, permissions: self.permissions }
    }
}

/// What applying `file` to a file with the bytes `old` comes to.
pub open spec fn applied(file: UnstructuredView, old: Seq<u8>) -> Applied {
    if file.content == old {
        Applied::Unchanged
    } else {
        Applied::Write(file.content)
    }
}

/// Why two opaque files with different bytes do not merge.
pub open spec fn different_content_reason() -> Seq<char> {
    "Unstructured files with different content cannot be merged"@
}

impl Default for Unstructured {
    fn default() -> (r: Self)
        ensures
            r@.content == Seq::<u8>::empty(),
            r@.permissions == DEFAULT_MODE,
    {
        Self { content: Vec::new(), permissions: DEFAULT_MODE }
    }
}

/// Whether `a` and `b` hold the same bytes.
pub fn same_bytes(a: &[u8], b: &[u8]) -> (r: bool)
    ensures
        r == (a@ == b@),
{
    if a.len() != b.len() {
        return false;
    }
    let mut i: usize = 0;
    while i < a.len()
        invariant
            i <= a.len(),
            a.len() == b.len(),
            forall|k: int| 0 <= k < i ==> a@[k] == b@[k],
        decreases a.len() - i,
    {
        if a[i] != b[i] {
            return false;
        }
        i += 1;
    }
    assert(a@ =~= b@);
    true
}

impl Unstructured {
    /// A file with the given bytes and the default mode.
    pub fn new(content: Vec<u8>) -> (r: Self)
        ensures
            r@.content == content@,
            r@.permissions == DEFAULT_MODE,
    {
        Self { content, permissions: DEFAULT_MODE }
    }

    /// A file that holds `content` in UTF-8, with the default mode.
    pub fn new_utf8(content: String) -> (r: Self)
        ensures
            r@.content == encode_utf8(content@),
            r@.permissions == DEFAULT_MODE,
    {
        Self { content: content.as_str().as_bytes_vec(), permissions: DEFAULT_MODE }
    }

    /// The same file with the mode bits `permissions`.
    pub fn with_permissions(self, permissions: u32) -> (r: Self)
        ensures
            r@.content == self@.content,
            r@.permissions == permissions,
    {
        Self { content: self.content, permissions }
    }

    /// The bytes to write over `old_content`, or `None` where the file holds
    /// them already.
    pub fn apply(&self, old_content: &[u8]) -> (r: Result<Option<Vec<u8>>, ApplyError>)
        ensures
            is_outcome(r, applied(self@, old_content@), old_content@),
    {
        if same_bytes(self.content.as_slice(), old_content) {
            Ok(None)
        } else {
            Ok(Some(self.content.clone()))
        }
    }

    /// The mode bits that the file gets when it is written.
    pub fn file_permission(&self) -> (mode: u32)
        ensures
            mode == self@.permissions,
    {
        self.permissions
    }

    /// Takes `y` into this declaration. Two opaque files agree only if their
    /// bytes are the same; the mode of `y` is not looked at.
    pub fn merge(&mut self, y: Unstructured) -> (r: Result<(), MergeError>)
        ensures
            *final(self) == *old(self),
            match r {
                Ok(_) => old(self)@.content == y@.content,
                Err(MergeError::MergeConflict { reason }) => {
                    &&& old(self)@.content != y@.content
                    &&& reason@ == different_content_reason()
                },
            },
    {
        if same_bytes(self.content.as_slice(), y.content.as_slice()) {
            Ok(())
        } else {
            Err(
                MergeError::MergeConflict {
                    reason: String::from_str(
                        "Unstructured files with different content cannot be merged",
                    ),
                },
            )
        }
    }
}

/// A file that holds the declared bytes already is left as it is.
pub proof fn lemma_same_content_unchanged(file: UnstructuredView)
    ensures
        applied(file, file.content) == Applied::Unchanged,
{
}

/// What applying an opaque file writes, applying it again leaves as it is.
pub proof fn lemma_applied_twice(file: UnstructuredView, old: Seq<u8>)
    requires
        applied(file, old) is Write,
    ensures
        applied(file, applied(file, old)->Write_0) == Applied::Unchanged,
{
}

} // verus!
