//! Per-field upload handling: digest, derive, persist, record.

use vstd::prelude::*;
use crate::digesting::{digest_text, sha256_of, content_hash_text};
use crate::pathing::{Config, field_ext, extension_of, derive_paths, storage_path, access_uri};
use crate::store::{BlobStore, spec_persist};
use crate::bytesutil::copy_bytes;

verus! {

/// One per-field result entry: on success `uri` carries the access
/// descriptor, on failure it carries the error text in the same channel.
pub struct FileObject {
    pub filename: Vec<u8>,
    pub name: Vec<u8>,
    pub uri: Vec<u8>,
}

/// The mathematical image of a result entry.
pub struct FileObjectView {
    pub filename: Seq<u8>,
    pub name: Seq<u8>,
    pub uri: Seq<u8>,
}

impl View for FileObject {
    type V = FileObjectView;

    open spec fn view(&self) -> FileObjectView {
        FileObjectView { filename: self.filename@, name: self.name@, uri: self.uri@ }
    }
}

/// The views of a sequence of result entries.
pub open spec fn items_view(s: Seq<FileObject>) -> Seq<FileObjectView> {
    s.map_values(|f: FileObject| f@)
}

/// Why a single field failed while the request went on.
#[derive(PartialEq, Eq, Structural)]
pub enum UploadError {
    MissingExtension,
}

impl FileObject {
    pub fn new(filename: Vec<u8>, name: Vec<u8>, uri: Vec<u8>) -> (r: FileObject)
        ensures
            r@ == (FileObjectView { filename: filename@, name: name@, uri: uri@ }),
    {
        FileObject { filename, name, uri }
    }

    /// The digest engine applied to one field's content.
    pub fn file_hash(&self, content: &Vec<u8>) -> (r: Vec<u8>)
        ensures
            r@ == digest_text(sha256_of(content@)),
            r@.len() >= 32,
    {
        content_hash_text(content)
    }

    /// Digests the content, derives the address from this entry's file
    /// name, persists the blob, and records the access descriptor; a file
    /// name without an extension fails this field alone and touches
    /// nothing.
    pub fn save_file(&mut self, content: &Vec<u8>, cfg: &Config, st: &mut BlobStore) -> (r: Result<
        (),
        UploadError,
    >)
        ensures
            final(self).filename@ == old(self).filename@,
            final(self).name@ == old(self).name@,
            match field_ext(old(self).filename@) {
                None => r == Err::<(), UploadError>(UploadError::MissingExtension)
                    && final(self).uri@ == old(self).uri@ && final(st)@ == old(st)@,
                Some(e) => {
                    let h = digest_text(sha256_of(content@));
                    r == Ok::<(), UploadError>(()) && final(self).uri@ == access_uri(
                        cfg.access_domain@,
                        h,
                        e,
                    ) && final(st)@ == spec_persist(
                        old(st)@,
                        storage_path(cfg.storage_root@, h, e),
                        content@,
                    )
                },
            },
    {
        match extension_of(&self.filename) {
            None => Err(UploadError::MissingExtension),
            Some(e) => {
                let h = content_hash_text(content);
                let (path, uri) = derive_paths(cfg, &h, &e);
                self.uri = uri;
                st.persist(path, copy_bytes(content));
                Ok(())
            },
        }
    }
}

/// The storage path and access descriptor a field's content would get, or
/// `None` when its file name carries no usable extension. This is the pure
/// planning step a deployment runs before its own durable write.
pub fn plan_field(filename: &Vec<u8>, content: &Vec<u8>, cfg: &Config) -> (r: Option<
    (Vec<u8>, Vec<u8>),
>)
    ensures
        match r {
            None => field_ext(filename@) is None,
            Some(pu) => field_ext(filename@) is Some && {
                let h = digest_text(sha256_of(content@));
                let e = field_ext(filename@).unwrap();
                pu.0@ == storage_path(cfg.storage_root@, h, e) && pu.1@ == access_uri(
                    cfg.access_domain@,
                    h,
                    e,
                )
            },
        },
{
    match extension_of(filename) {
        None => None,
        Some(e) => {
            let h = content_hash_text(content);
            Some(derive_paths(cfg, &h, &e))
        },
    }
}

} // verus!
