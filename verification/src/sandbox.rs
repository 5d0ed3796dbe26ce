//! The sandbox: process-wide immutable font and library state plus the
//! per-session file cache and per-package raw storage, and the
//! request-scoped compilation context that serves the compiler's resolution
//! queries.
use vstd::prelude::*;

use crate::archive::gunzip_of;
use crate::archive::untar_of;
use crate::bytes::clone_bytes;
use crate::bytes::bytes_eq;
use crate::fonts::build_catalog;
use crate::fonts::some_face_invalid;
use crate::fonts::FontCatalog;
use crate::fonts::FontFace;
use crate::fonts::FontFailure;
use crate::ids::file_id_eq;
use crate::ids::marker_path;
use crate::ids::marker_path_bytes;
use crate::ids::package_id_eq;
use crate::ids::package_url_of;
use crate::ids::FileId;
use crate::ids::FileIdView;
use crate::ids::PackageId;
use crate::ids::PackageIdView;
use crate::store::has_key;
use crate::store::keys_distinct;
use crate::store::lemma_map_of_contains;
use crate::store::lemma_map_of_index;
use crate::store::lemma_map_of_push;
use crate::store::lemma_map_of_update;
use crate::store::lemma_push_distinct;
use crate::store::lemma_update_distinct;
use crate::store::map_of;
use crate::text::parse_text;
use crate::text::text_of;

verus! {

/// The fixed standard-definitions object: one per sandbox, never replaced.
pub struct Library {}

/// One cached file: immutable raw bytes plus the parsed text, filled in at
/// most once, on the first request for the text.
pub struct FileEntry {
    pub bytes: Vec<u8>,
    pub text: Option<String>,
}

/// Mathematical image of a [`FileEntry`].
pub ghost struct FileEntryView {
    pub bytes: Seq<u8>,
    pub text: Option<Seq<char>>,
}

impl View for FileEntry {
    type V = FileEntryView;

    open spec fn view(&self) -> FileEntryView {
        FileEntryView {
            bytes: self.bytes@,
            text: match self.text {
                Some(t) => Some(t@),
                None => None,
            },
        }
    }
}

/// A key into per-package raw storage: which package, and the
/// archive-relative path within it.
pub struct PackageKey {
    pub package: PackageId,
    pub path: Vec<u8>,
}

/// Mathematical image of a [`PackageKey`].
pub ghost struct PackageKeyView {
    pub package: PackageIdView,
    pub path: Seq<u8>,
}

impl View for PackageKey {
    type V = PackageKeyView;

    open spec fn view(&self) -> PackageKeyView {
        PackageKeyView { package: self.package@, path: self.path@ }
    }
}

/// Why a raw-byte resolution failed.
#[derive(Debug)]
pub enum FileFailure {
    /// The identifier is unresolvable: it names no package, or its package's
    /// storage has no file at its path.
    NotFound,
    /// The identifier's package has not been fetched yet; the payload is the
    /// registry address its archive must be fetched from.
    PackageNotFetched(Vec<u8>),
}

/// Why a text resolution failed.
#[derive(Debug)]
pub enum TextFailure {
    /// The identifier is unresolvable.
    NotFound,
    /// The file's bytes are not valid text.
    InvalidEncoding,
    /// The identifier's package has not been fetched yet; the payload is the
    /// registry address its archive must be fetched from.
    PackageNotFetched(Vec<u8>),
}

/// Why installing a fetched archive failed.
#[derive(Clone, Copy, PartialEq, Eq, Structural, Debug)]
pub enum PackageFailure {
    /// The registry was unreachable or answered without success.  Produced
    /// by the caller that performs the transfer, never by the sandbox.
    NetworkFailed,
    /// The fetched bytes are not a well-formed compressed archive.
    MalformedArchive,
}

/// The package an identifier belongs to; meaningful only for an identifier
/// that names one.
pub open spec fn id_package(id: FileIdView) -> PackageIdView
    recommends
        id.package is Some,
{
    match id.package {
        Some(p) => p,
        None => vstd::pervasive::arbitrary(),
    }
}

/// Entries already cached stay: their bytes never change, and a parsed text,
/// once present, is never dropped or replaced.
pub open spec fn entries_preserved(
    pre: Map<FileIdView, FileEntryView>,
    post: Map<FileIdView, FileEntryView>,
) -> bool {
    forall|k: FileIdView| #[trigger]
        pre.contains_key(k) ==> post.contains_key(k) && post[k].bytes == pre[k].bytes && (
        pre[k].text is Some ==> post[k].text == pre[k].text)
}

/// What one raw-byte resolution does: a cached entry answers unchanged; a
/// package-free identifier is not found; an unfetched package is turned
/// back with its registry address; a fetched one is served from raw storage
/// and cached, or not found.
pub open spec fn byte_resolution_ok(
    pre: Sandbox,
    post: Sandbox,
    id: FileIdView,
    r: Result<Vec<u8>, FileFailure>,
) -> bool {
    &&& post.package_files@ == pre.package_files@
    &&& pre.has_file(id) ==> post == pre && (r matches Ok(b) && b@ == pre.files_map()[id].bytes)
    &&& !pre.has_file(id) && id.package is None ==> (r matches Err(FileFailure::NotFound) && post
        == pre)
    &&& id.package is Some && !pre.has_file(id) && !pre.package_fetched(id_package(id)) ==> (
    r matches Err(FileFailure::PackageNotFetched(u)) && u@ == package_url_of(id_package(id))
        && post == pre)
    &&& id.package is Some && !pre.has_file(id) && pre.package_fetched(id_package(id))
        && pre.storage_map().contains_key(Sandbox::storage_key(id_package(id), id.path)) ==> (
    r matches Ok(b) && b@ == pre.storage_map()[Sandbox::storage_key(id_package(id), id.path)]
        && post.files_map() == pre.files_map().insert(
        id,
        (FileEntryView { bytes: b@, text: None }),
    ))
    &&& id.package is Some && !pre.has_file(id) && pre.package_fetched(id_package(id))
        && !pre.storage_map().contains_key(Sandbox::storage_key(id_package(id), id.path)) ==> (
    r matches Err(FileFailure::NotFound) && post == pre)
}

/// What one text resolution does: the bytes are resolved as by
/// [`byte_resolution_ok`], decoded, and the decoded text memoized; a decode
/// failure is reported and not cached.
pub open spec fn text_resolution_ok(
    pre: Sandbox,
    post: Sandbox,
    id: FileIdView,
    r: Result<String, TextFailure>,
) -> bool {
    &&& post.package_files@ == pre.package_files@
    &&& (r is Ok <==> pre.can_resolve(id) && text_of(pre.resolved_bytes(id)) is Some)
    &&& r matches Ok(t) ==> text_of(pre.resolved_bytes(id)) == Some(t@) && post.files_map()
        == pre.files_map().insert(
        id,
        (FileEntryView { bytes: pre.resolved_bytes(id), text: Some(t@) }),
    )
    &&& r matches Err(TextFailure::InvalidEncoding) ==> pre.can_resolve(id) && text_of(
        pre.resolved_bytes(id),
    ) is None && post.files_map() == pre.files_map().insert(
        id,
        (FileEntryView { bytes: pre.resolved_bytes(id), text: None }),
    )
    &&& r matches Err(TextFailure::NotFound) ==> post == pre && !pre.can_resolve(id) && (id.package
        is Some ==> pre.package_fetched(id_package(id)))
    &&& r matches Err(TextFailure::PackageNotFetched(u)) ==> post == pre && !pre.has_file(id)
        && id.package is Some && !pre.package_fetched(id_package(id)) && u@ == package_url_of(
        id_package(id),
    )
}

/// The process-wide aggregate: font catalog, standard library, file cache
/// and per-package raw storage.
pub struct Sandbox {
    pub library: Library,
    pub fonts: FontCatalog,
    pub files: Vec<(FileId, FileEntry)>,
    pub package_files: Vec<(PackageKey, Vec<u8>)>,
}

impl Sandbox {
    /// The file cache as a map from identifier to entry.
    pub open spec fn files_map(self) -> Map<FileIdView, FileEntryView> {
        map_of(self.files@)
    }

    /// Per-package raw storage as a map from (package, path) to bytes.
    pub open spec fn storage_map(self) -> Map<PackageKeyView, Seq<u8>> {
        map_of(self.package_files@)
    }

    /// Whether the cache holds an entry for the identifier.
    pub open spec fn has_file(self, id: FileIdView) -> bool {
        self.files_map().contains_key(id)
    }

    /// The storage key for a package-scoped path.
    pub open spec fn storage_key(p: PackageIdView, path: Seq<u8>) -> PackageKeyView {
        PackageKeyView { package: p, path }
    }

    /// A parsed text, where present, is exactly what the entry's bytes
    /// decode to.
    pub open spec fn entry_text_ok(e: FileEntryView) -> bool {
        e.text matches Some(t) ==> text_of(e.bytes) == Some(t)
    }

    /// Well-formedness: both stores have pairwise-distinct keys, the font
    /// catalog is consistent, and every memoized text matches its bytes.
    pub open spec fn wf(self) -> bool {
        &&& keys_distinct(self.files@)
        &&& keys_distinct(self.package_files@)
        &&& self.fonts.wf()
        &&& forall|k: FileIdView| #[trigger]
            self.files_map().contains_key(k) ==> Self::entry_text_ok(self.files_map()[k])
    }

    /// A package counts as fetched exactly when its well-known marker file
    /// is in raw storage.
    pub open spec fn package_fetched(self, p: PackageIdView) -> bool {
        self.storage_map().contains_key(Self::storage_key(p, marker_path()))
    }

    /// A fresh sandbox: no fonts, no cached files, no package storage.
    pub fn new() -> (r: Self)
        ensures
            r.wf(),
            r.files_map() == Map::<FileIdView, FileEntryView>::empty(),
            r.storage_map() == Map::<PackageKeyView, Seq<u8>>::empty(),
            r.fonts.buffers@.len() == 0,
            r.fonts.faces@.len() == 0,
    {
        let r = Sandbox {
            library: Library {  },
            fonts: FontCatalog::empty(),
            files: Vec::new(),
            package_files: Vec::new(),
        };
        r
    }

    /// Replaces the font catalog wholesale and atomically: on success both
    /// the face list and its summary come from the new buffers, on failure
    /// the sandbox is exactly as it was.  Fails exactly when some face of
    /// some buffer does not parse.
    pub fn set_fonts(&mut self, font_files: Vec<Vec<u8>>) -> (r: Result<(), FontFailure>)
        requires
            old(self).wf(),
        ensures
            final(self).wf(),
            r is Err <==> some_face_invalid(font_files@),
            r is Err ==> *final(self) == *old(self),
            r is Ok ==> final(self).fonts.wf() && final(self).fonts.buffers@ == font_files@
                && final(self).files@ == old(self).files@ && final(self).package_files@ == old(self).package_files@ && final(self).library == old(self).library,
    {
        match build_catalog(font_files) {
            Ok(catalog) => {
                self.fonts = catalog;
                proof {
                    assert(self.files_map() == old(self).files_map());
                    assert(self.storage_map() == old(self).storage_map());
                }
                Ok(())
            },
            Err(e) => Err(e),
        }
    }

    /// Resolves an identifier to its raw bytes.
    ///
    /// A cached entry answers at once.  Otherwise an identifier without a
    /// package is simply not found; one with a fetched package is served
    /// from raw storage and cached, and one with an unfetched package is
    /// turned back with the address its archive must be fetched from.
    pub fn file(&mut self, id: &FileId) -> (r: Result<Vec<u8>, FileFailure>)
        requires
            old(self).wf(),
        ensures
            final(self).wf(),
            final(self).fonts == old(self).fonts,
            final(self).library == old(self).library,
            entries_preserved(old(self).files_map(), final(self).files_map()),
            byte_resolution_ok(*old(self), *final(self), id@, r),
    {
        let idx = find_file_index(&self.files, id);
        if let Some(i) = idx {
            proof {
                assert(has_key(self.files@, id@));
                lemma_map_of_contains::<FileId, FileEntry>(self.files@, id@);
                lemma_map_of_index::<FileId, FileEntry>(self.files@, i as int);
            }
            return Ok(clone_bytes(&self.files[i].1.bytes));
        }
        proof {
            lemma_map_of_contains::<FileId, FileEntry>(self.files@, id@);
            assert(!old(self).has_file(id@));
        }
        match &id.package {
            None => Err(FileFailure::NotFound),
            Some(p) => {
                let marker = PackageKey { package: p.clone(), path: marker_path_bytes() };
                let m_idx = find_storage_index(&self.package_files, &marker);
                proof {
                    lemma_map_of_contains::<PackageKey, Vec<u8>>(self.package_files@, marker@);
                }
                if m_idx.is_none() {
                    return Err(FileFailure::PackageNotFetched(p.url()));
                }
                proof {
                    assert(has_key(self.package_files@, marker@));
                    assert(old(self).package_fetched(p@));
                }
                let key = PackageKey { package: p.clone(), path: clone_bytes(&id.path) };
                let k_idx = find_storage_index(&self.package_files, &key);
                proof {
                    lemma_map_of_contains::<PackageKey, Vec<u8>>(self.package_files@, key@);
                }
                match k_idx {
                    None => Err(FileFailure::NotFound),
                    Some(ki) => {
                        proof {
                            assert(has_key(self.package_files@, key@));
                            lemma_map_of_index::<PackageKey, Vec<u8>>(
                                self.package_files@,
                                ki as int,
                            );
                        }
                        let bytes = clone_bytes(&self.package_files[ki].1);
                        let stored = clone_bytes(&bytes);
                        let new_key = id.clone();
                        let entry = FileEntry { bytes: stored, text: None };
                        proof {
                            lemma_push_distinct::<FileId, FileEntry>(self.files@, new_key, entry);
                            lemma_map_of_push::<FileId, FileEntry>(self.files@, new_key, entry);
                        }
                        self.files.push((new_key, entry));
                        Ok(bytes)
                    },
                }
            },
        }
    }

    /// Whether a raw-byte resolution of the identifier would succeed in the
    /// current state.
    pub open spec fn can_resolve(self, id: FileIdView) -> bool {
        self.has_file(id) || (id.package is Some && self.package_fetched(id_package(id))
            && self.storage_map().contains_key(Self::storage_key(id_package(id), id.path)))
    }

    /// The bytes a resolution of the identifier returns; meaningful only
    /// when one can succeed.
    pub open spec fn resolved_bytes(self, id: FileIdView) -> Seq<u8>
        recommends
            self.can_resolve(id),
    {
        if self.has_file(id) {
            self.files_map()[id].bytes
        } else {
            self.storage_map()[Self::storage_key(id_package(id), id.path)]
        }
    }

    /// Resolves an identifier to its parsed text.
    ///
    /// The bytes are resolved as by [`Sandbox::file`]; the first successful
    /// decode is memoized in the entry and every later call returns the
    /// memoized text.  A decode failure is reported and not cached, though
    /// the bytes never change, so retrying fails identically.
    pub fn file_text(&mut self, id: &FileId) -> (r: Result<String, TextFailure>)
        requires
            old(self).wf(),
        ensures
            final(self).wf(),
            final(self).fonts == old(self).fonts,
            final(self).library == old(self).library,
            entries_preserved(old(self).files_map(), final(self).files_map()),
            text_resolution_ok(*old(self), *final(self), id@, r),
    {
        let bytes = match self.file(id) {
            Ok(b) => b,
            Err(FileFailure::NotFound) => {
                return Err(TextFailure::NotFound);
            },
            Err(FileFailure::PackageNotFetched(u)) => {
                return Err(TextFailure::PackageNotFetched(u));
            },
        };
        let idx = find_file_index(&self.files, id);
        if let Some(i) = idx {
            proof {
                assert(has_key(self.files@, id@));
                lemma_map_of_contains::<FileId, FileEntry>(self.files@, id@);
                lemma_map_of_index::<FileId, FileEntry>(self.files@, i as int);
            }
            let entry_has_text = self.files[i].1.text.is_some();
            if entry_has_text {
                match &self.files[i].1.text {
                    Some(t) => {
                        let out = t.clone();
                        proof {
                            assert(old(self).has_file(id@));
                            assert(self.files_map()[id@] == (FileEntryView {
                                bytes: bytes@,
                                text: Some(out@),
                            }));
                            assert(old(self).files_map().insert(
                                id@,
                                (FileEntryView { bytes: bytes@, text: Some(out@) }),
                            ) =~= old(self).files_map());
                            assert(bytes@ == old(self).resolved_bytes(id@));
                            assert(self.files_map() == old(self).files_map().insert(
                                id@,
                                (FileEntryView {
                                    bytes: old(self).resolved_bytes(id@),
                                    text: Some(out@),
                                }),
                            ));
                        }
                        Ok(out)
                    },
                    None => {
                        proof {
                            assert(false);
                        }
                        Err(TextFailure::NotFound)
                    },
                }
            } else {
                match parse_text(&bytes) {
                    Some(t) => {
                        let stored = t.clone();
                        let new_key = id.clone();
                        let new_entry = FileEntry { bytes, text: Some(stored) };
                        proof {
                            lemma_update_distinct::<FileId, FileEntry>(
                                self.files@,
                                i as int,
                                new_key,
                                new_entry,
                            );
                            lemma_map_of_update::<FileId, FileEntry>(
                                self.files@,
                                i as int,
                                new_key,
                                new_entry,
                            );
                        }
                        self.files.set(i, (new_key, new_entry));
                        proof {
                            if old(self).has_file(id@) {
                                assert(old(self).files_map().insert(
                                    id@,
                                    (FileEntryView {
                                        bytes: old(self).resolved_bytes(id@),
                                        text: Some(t@),
                                    }),
                                ) =~= self.files_map());
                            } else {
                                assert(old(self).files_map().insert(
                                    id@,
                                    (FileEntryView {
                                        bytes: old(self).resolved_bytes(id@),
                                        text: None,
                                    }),
                                ).insert(
                                    id@,
                                    (FileEntryView {
                                        bytes: old(self).resolved_bytes(id@),
                                        text: Some(t@),
                                    }),
                                ) =~= old(self).files_map().insert(
                                    id@,
                                    (FileEntryView {
                                        bytes: old(self).resolved_bytes(id@),
                                        text: Some(t@),
                                    }),
                                ));
                                assert(self.files_map() == old(self).files_map().insert(
                                    id@,
                                    (FileEntryView {
                                        bytes: old(self).resolved_bytes(id@),
                                        text: Some(t@),
                                    }),
                                ));
                            }
                        }
                        Ok(t)
                    },
                    None => {
                        proof {
                            if old(self).has_file(id@) {
                                assert(old(self).files_map().insert(
                                    id@,
                                    (FileEntryView {
                                        bytes: old(self).resolved_bytes(id@),
                                        text: None,
                                    }),
                                ) =~= self.files_map());
                            }
                        }
                        Err(TextFailure::InvalidEncoding)
                    },
                }
            }
        } else {
            proof {
                lemma_map_of_contains::<FileId, FileEntry>(self.files@, id@);
                assert(false);
            }
            Err(TextFailure::NotFound)
        }
    }

    /// Whether the package still has to be fetched from the registry: true
    /// exactly when its marker file is not yet in raw storage.
    pub fn needs_fetch(&self, package: &PackageId) -> (r: bool)
        ensures
            r == !self.package_fetched(package@),
    {
        let marker = PackageKey { package: package.clone(), path: marker_path_bytes() };
        let idx = find_storage_index(&self.package_files, &marker);
        proof {
            lemma_map_of_contains::<PackageKey, Vec<u8>>(self.package_files@, marker@);
        }
        match idx {
            Some(i) => {
                proof {
                    assert(has_key(self.package_files@, marker@));
                }
                false
            },
            None => true,
        }
    }
}

/// Raw storage after the entries of an unpacked archive are inserted for a
/// package, in archive order; a later entry at the same path wins.
pub open spec fn entries_inserted(
    m: Map<PackageKeyView, Seq<u8>>,
    p: PackageIdView,
    es: Seq<(Seq<u8>, Seq<u8>)>,
) -> Map<PackageKeyView, Seq<u8>>
    decreases es.len(),
{
    if es.len() == 0 {
        m
    } else {
        entries_inserted(m, p, es.drop_last()).insert(
            (PackageKeyView { package: p, path: es.last().0 }),
            es.last().1,
        )
    }
}

impl Sandbox {
    /// Unpacks a fetched archive into per-package raw storage.
    ///
    /// The bytes are decompressed as a gzip stream and unpacked as a tar
    /// archive; every entry, in archive order, is stored under (package,
    /// entry path).  Fails exactly when either decoding fails, and then
    /// leaves the sandbox unchanged.
    pub fn install_archive(&mut self, package: &PackageId, archive_gz: &Vec<u8>) -> (r: Result<
        (),
        PackageFailure,
    >)
        requires
            old(self).wf(),
        ensures
            final(self).wf(),
            final(self).files@ == old(self).files@,
            final(self).fonts == old(self).fonts,
            final(self).library == old(self).library,
            entries_preserved(old(self).files_map(), final(self).files_map()),
            r is Ok <==> (gunzip_of(archive_gz@) matches Some(t) && untar_of(t) is Some),
            r is Err ==> (r matches Err(PackageFailure::MalformedArchive) && *final(self) == *old(
                self,
            )),
            r is Ok ==> final(self).storage_map() == entries_inserted(
                old(self).storage_map(),
                package@,
                archive_entries(archive_gz@),
            ),
    {
        let tar_bytes = match crate::archive::gunzip(archive_gz) {
            Some(t) => t,
            None => {
                return Err(PackageFailure::MalformedArchive);
            },
        };
        let entries = match crate::archive::untar(&tar_bytes) {
            Some(es) => es,
            None => {
                return Err(PackageFailure::MalformedArchive);
            },
        };
        let ghost spec_entries = archive_entries(archive_gz@);
        proof {
            assert(spec_entries == untar_of(tar_bytes@).unwrap());
        }
        let mut i: usize = 0;
        proof {
            assert(spec_entries.take(0) =~= Seq::<(Seq<u8>, Seq<u8>)>::empty());
        }
        while i < entries.len()
            invariant
                i <= entries@.len(),
                entries@.len() == spec_entries.len(),
                forall|j: int|
                    0 <= j < entries@.len() ==> (#[trigger] entries@[j]).0@ == spec_entries[j].0
                        && entries@[j].1@ == spec_entries[j].1,
                keys_distinct(self.package_files@),
                self.storage_map() == entries_inserted(
                    old(self).storage_map(),
                    package@,
                    spec_entries.take(i as int),
                ),
                self.files@ == old(self).files@,
                self.fonts == old(self).fonts,
                self.library == old(self).library,
                old(self).wf(),
            decreases entries@.len() - i,
        {
            let key = PackageKey {
                package: package.clone(),
                path: clone_bytes(&entries[i].0),
            };
            let value = clone_bytes(&entries[i].1);
            let k_idx = find_storage_index(&self.package_files, &key);
            proof {
                lemma_map_of_contains::<PackageKey, Vec<u8>>(self.package_files@, key@);
            }
            match k_idx {
                Some(j) => {
                    proof {
                        lemma_update_distinct::<PackageKey, Vec<u8>>(
                            self.package_files@,
                            j as int,
                            key,
                            value,
                        );
                        lemma_map_of_update::<PackageKey, Vec<u8>>(
                            self.package_files@,
                            j as int,
                            key,
                            value,
                        );
                    }
                    self.package_files.set(j, (key, value));
                },
                None => {
                    proof {
                        lemma_push_distinct::<PackageKey, Vec<u8>>(
                            self.package_files@,
                            key,
                            value,
                        );
                        lemma_map_of_push::<PackageKey, Vec<u8>>(self.package_files@, key, value);
                    }
                    self.package_files.push((key, value));
                },
            }
            proof {
                assert(spec_entries.take(i as int + 1).drop_last() =~= spec_entries.take(i as int));
                assert(spec_entries.take(i as int + 1).last() == spec_entries[i as int]);
            }
            i += 1;
        }
        proof {
            assert(spec_entries.take(i as int) =~= spec_entries);
            assert(self.files_map() == old(self).files_map());
        }
        Ok(())
    }
}

/// The storage entries an archive unpacks to: the tar entries of its
/// decompressed stream.  Meaningful only when both decodings succeed.
pub open spec fn archive_entries(gz: Seq<u8>) -> Seq<(Seq<u8>, Seq<u8>)>
    recommends
        gunzip_of(gz) is Some,
        untar_of(gunzip_of(gz).unwrap()) is Some,
{
    match gunzip_of(gz) {
        Some(t) => match untar_of(t) {
            Some(es) => es,
            None => Seq::empty(),
        },
        None => Seq::empty(),
    }
}

/// The identifier under which a fresh main source is bound: no package, an
/// empty root-relative path.  It always resolves to the in-memory main
/// source text, never to the file cache.
pub open spec fn detached_id() -> FileIdView {
    FileIdView { package: None, path: Seq::empty() }
}

/// The request-scoped compilation context: one main source text and one
/// captured timestamp, serving the compiler's resolution queries against a
/// sandbox.
pub struct WithSource {
    pub source: String,
    pub main_id: FileId,
    pub time: i64,
}

impl Sandbox {
    /// Binds a fresh main source text and a captured timestamp into a
    /// request-scoped compilation context.
    pub fn with_source(&self, source: String, now: i64) -> (r: WithSource)
        ensures
            r.source@ == source@,
            r.main_id@ == detached_id(),
            r.time == now,
    {
        let main_id = FileId { package: None, path: Vec::new() };
        proof {
            assert(main_id@.path =~= detached_id().path);
        }
        WithSource { source, main_id, time: now }
    }
}

impl WithSource {
    /// The main source text this context was created with.
    pub fn main_source(&self) -> (r: &String)
        ensures
            r@ == self.source@,
    {
        &self.source
    }

    /// Resolves an identifier to text for the compiler: the main identifier
    /// answers with the main source itself, always and without touching the
    /// cache; every other identifier goes through the sandbox.
    pub fn source(&self, sandbox: &mut Sandbox, id: &FileId) -> (r: Result<String, TextFailure>)
        requires
            old(sandbox).wf(),
        ensures
            final(sandbox).wf(),
            final(sandbox).fonts == old(sandbox).fonts,
            final(sandbox).library == old(sandbox).library,
            entries_preserved(old(sandbox).files_map(), final(sandbox).files_map()),
            id@ == self.main_id@ ==> (r matches Ok(t) && t@ == self.source@ && *final(sandbox)
                == *old(sandbox)),
            id@ != self.main_id@ ==> text_resolution_ok(*old(sandbox), *final(sandbox), id@, r),
    {
        if file_id_eq(id, &self.main_id) {
            Ok(self.source.clone())
        } else {
            sandbox.file_text(id)
        }
    }

    /// Resolves an identifier to raw bytes for the compiler, through the
    /// sandbox's file cache.
    pub fn file(&self, sandbox: &mut Sandbox, id: &FileId) -> (r: Result<Vec<u8>, FileFailure>)
        requires
            old(sandbox).wf(),
        ensures
            final(sandbox).wf(),
            final(sandbox).fonts == old(sandbox).fonts,
            final(sandbox).library == old(sandbox).library,
            entries_preserved(old(sandbox).files_map(), final(sandbox).files_map()),
            byte_resolution_ok(*old(sandbox), *final(sandbox), id@, r),
    {
        sandbox.file(id)
    }

    /// The sandbox's font summary, for the compiler to search.
    pub fn book<'a>(&self, sandbox: &'a Sandbox) -> (r: &'a FontCatalog)
        ensures
            r == sandbox.fonts,
    {
        &sandbox.fonts
    }

    /// The face at a handle index, or nothing when the index is out of
    /// range; never a hard failure, the compiler probes speculatively.
    pub fn font(&self, sandbox: &Sandbox, index: usize) -> (r: Option<FontFace>)
        ensures
            index < sandbox.fonts.faces@.len() ==> r == Some(sandbox.fonts.faces@[index as int]),
            index >= sandbox.fonts.faces@.len() ==> r is None,
    {
        if index < sandbox.fonts.faces.len() {
            Some(sandbox.fonts.faces[index])
        } else {
            None
        }
    }

    /// The sandbox's fixed standard-definitions object, identity-stable
    /// across the sandbox's lifetime.
    pub fn library<'a>(&self, sandbox: &'a Sandbox) -> (r: &'a Library)
        ensures
            r == sandbox.library,
    {
        &sandbox.library
    }

    /// Today's date, from the timestamp captured when this context was
    /// created, shifted by a caller-supplied hour offset; an out-of-range
    /// offset, or a shifted time outside the supported calendar range,
    /// yields unknown rather than failing.
    pub fn today(&self, offset: Option<i64>) -> (r: Option<crate::dates::Date>)
        ensures
            ({
                let h = match offset {
                    Some(x) => x as int,
                    None => 0int,
                };
                let shifted = self.time + h * 3600;
                &&& (r is Some <==> -23 <= h <= 23 && 0 <= shifted <= 253402300799int)
                &&& r matches Some(d) ==> crate::dates::valid_date(
                    d.year as int,
                    d.month as int,
                    d.day as int,
                ) && crate::dates::day_number(d.year as int, d.month as int, d.day as int)
                    == shifted / 86400
            }),
    {
        let h: i64 = match offset {
            Some(x) => x,
            None => 0,
        };
        if h < -23 || h > 23 {
            return None;
        }
        if self.time < -82800 || self.time > 253402383599 {
            return None;
        }
        let shifted = self.time + h * 3600;
        if shifted < 0 || shifted > 253402300799 {
            return None;
        }
        let days = shifted / 86400;
        Some(crate::dates::civil_from_days(days))
    }
}

/// Law: once a file has been resolved, its bytes are identical on every
/// later resolution — every sandbox operation preserves the entries of the
/// file cache, so a cached entry's bytes never change within a session.
pub proof fn lemma_resolved_bytes_stable(
    pre: Map<FileIdView, FileEntryView>,
    post: Map<FileIdView, FileEntryView>,
    id: FileIdView,
)
    requires
        entries_preserved(pre, post),
        pre.contains_key(id),
    ensures
        post.contains_key(id),
        post[id].bytes == pre[id].bytes,
{
}

/// Law: once a resolution has returned an identifier's bytes, every later
/// resolution of that identifier returns the very same bytes, whatever
/// entry-preserving operations ran in between.
pub proof fn lemma_second_resolution_returns_same_bytes(
    s0: Sandbox,
    s1: Sandbox,
    s2: Sandbox,
    s3: Sandbox,
    id: FileIdView,
    b1: Vec<u8>,
    r2: Result<Vec<u8>, FileFailure>,
)
    requires
        byte_resolution_ok(s0, s1, id, Ok(b1)),
        entries_preserved(s1.files_map(), s2.files_map()),
        byte_resolution_ok(s2, s3, id, r2),
    ensures
        r2 matches Ok(b2) && b2@ == b1@,
{
    assert(s1.has_file(id) && s1.files_map()[id].bytes == b1@) by {
        if !s0.has_file(id) {
            assert(s1.files_map() == s0.files_map().insert(
                id,
                (FileEntryView { bytes: b1@, text: None }),
            ));
        }
    }
    assert(s2.has_file(id) && s2.files_map()[id].bytes == b1@);
}

/// Law: a buffer that is not valid text fails with `InvalidEncoding` every
/// time — after one such failure, any further text resolution of the same
/// identifier fails the same way, since the cached bytes never change.
pub proof fn lemma_invalid_encoding_persists(
    pre: Sandbox,
    mid: Sandbox,
    post: Sandbox,
    id: FileIdView,
    r1: Result<String, TextFailure>,
    r2: Result<String, TextFailure>,
)
    requires
        text_resolution_ok(pre, mid, id, r1),
        r1 matches Err(TextFailure::InvalidEncoding),
        text_resolution_ok(mid, post, id, r2),
    ensures
        r2 matches Err(TextFailure::InvalidEncoding),
{
    assert(mid.files_map() == pre.files_map().insert(
        id,
        (FileEntryView { bytes: pre.resolved_bytes(id), text: None }),
    ));
    assert(mid.has_file(id));
    assert(mid.resolved_bytes(id) == pre.resolved_bytes(id));
    assert(!(r2 is Ok));
    if r2 matches Err(TextFailure::NotFound) {
        assert(mid.can_resolve(id));
        assert(false);
    }
    if r2 matches Err(TextFailure::PackageNotFetched(_)) {
        assert(false);
    }
}

/// No two entries unpack to the same path.
pub open spec fn paths_distinct(es: Seq<(Seq<u8>, Seq<u8>)>) -> bool {
    forall|i: int, j: int| 0 <= i < j < es.len() ==> es[i].0 != es[j].0
}

/// Law: installing an archive never removes anything from raw storage; in
/// particular a package once marked fetched stays fetched.
pub proof fn lemma_entries_inserted_monotone(
    m: Map<PackageKeyView, Seq<u8>>,
    p: PackageIdView,
    es: Seq<(Seq<u8>, Seq<u8>)>,
    k: PackageKeyView,
)
    requires
        m.contains_key(k),
    ensures
        entries_inserted(m, p, es).contains_key(k),
    decreases es.len(),
{
    if es.len() == 0 {
    } else {
        lemma_entries_inserted_monotone(m, p, es.drop_last(), k);
    }
}

/// Law: at most one fetch per package — when the unpacked archive contains
/// the marker file, the package counts as fetched afterwards, so a repeated
/// `needs_fetch` answers false and no further network request is made.
pub proof fn lemma_install_marks_fetched(
    m: Map<PackageKeyView, Seq<u8>>,
    p: PackageIdView,
    es: Seq<(Seq<u8>, Seq<u8>)>,
    i: int,
)
    requires
        0 <= i < es.len(),
        es[i].0 == marker_path(),
    ensures
        entries_inserted(m, p, es).contains_key(Sandbox::storage_key(p, marker_path())),
    decreases es.len(),
{
    if i == es.len() - 1 {
    } else {
        assert(es.drop_last()[i] == es[i]);
        lemma_install_marks_fetched(m, p, es.drop_last(), i);
    }
}

/// Law: fetch-and-unpack is idempotent — once an archive holding the
/// well-known marker file is installed for a package, the package counts as
/// fetched, so `needs_fetch` answers false and a repeated ensure-fetched
/// performs no further network request.
pub proof fn lemma_fetch_idempotent(
    pre: Sandbox,
    post: Sandbox,
    p: PackageIdView,
    gz: Seq<u8>,
    i: int,
)
    requires
        post.storage_map() == entries_inserted(pre.storage_map(), p, archive_entries(gz)),
        0 <= i < archive_entries(gz).len(),
        archive_entries(gz)[i].0 == marker_path(),
    ensures
        post.package_fetched(p),
{
    lemma_install_marks_fetched(pre.storage_map(), p, archive_entries(gz), i);
}

/// Law: unpacking an archive with pairwise-distinct entry paths, none of
/// them stored yet, populates exactly one raw-storage entry per archive
/// entry, each byte-for-byte equal to the entry's contents, and leaves every
/// prior entry as it was; an empty archive populates nothing.
pub proof fn lemma_install_populates(
    m: Map<PackageKeyView, Seq<u8>>,
    p: PackageIdView,
    es: Seq<(Seq<u8>, Seq<u8>)>,
)
    requires
        m.dom().finite(),
        paths_distinct(es),
        forall|i: int|
            0 <= i < es.len() ==> !m.contains_key(Sandbox::storage_key(p, (#[trigger] es[i]).0)),
    ensures
        entries_inserted(m, p, es).dom().finite(),
        entries_inserted(m, p, es).dom().len() == m.dom().len() + es.len(),
        forall|i: int|
            0 <= i < es.len() ==> entries_inserted(m, p, es).contains_key(
                Sandbox::storage_key(p, (#[trigger] es[i]).0),
            ) && entries_inserted(m, p, es)[Sandbox::storage_key(p, es[i].0)] == es[i].1,
        forall|k: PackageKeyView| #[trigger]
            m.contains_key(k) ==> entries_inserted(m, p, es).contains_key(k) && entries_inserted(
                m,
                p,
                es,
            )[k] == m[k],
        forall|k: PackageKeyView| #[trigger]
            entries_inserted(m, p, es).contains_key(k) ==> m.contains_key(k) || (exists|i: int|
                0 <= i < es.len() && k == Sandbox::storage_key(p, (#[trigger] es[i]).0)),
    decreases es.len(),
{
    broadcast use vstd::set::axiom_set_insert_len;

    if es.len() == 0 {
    } else {
        let es0 = es.drop_last();
        assert(forall|i: int| 0 <= i < es0.len() ==> es0[i] == es[i]);
        lemma_install_populates(m, p, es0);
        let prev = entries_inserted(m, p, es0);
        let last_key = Sandbox::storage_key(p, es.last().0);
        assert(!m.contains_key(last_key));
        assert forall|i: int| 0 <= i < es0.len() implies last_key != Sandbox::storage_key(
            p,
            (#[trigger] es0[i]).0,
        ) by {
            assert(es[i].0 != es[es.len() - 1].0);
        }
        assert(!prev.contains_key(last_key));
        assert(entries_inserted(m, p, es) == prev.insert(last_key, es.last().1));
        assert forall|i: int| 0 <= i < es.len() implies entries_inserted(m, p, es).contains_key(
            Sandbox::storage_key(p, (#[trigger] es[i]).0),
        ) && entries_inserted(m, p, es)[Sandbox::storage_key(p, es[i].0)] == es[i].1 by {
            if i < es.len() - 1 {
                assert(es0[i] == es[i]);
                assert(Sandbox::storage_key(p, es[i].0) != last_key);
            }
        }
    }
}

/// The index of the entry carrying `id`, if the cache holds one.
fn find_file_index(files: &Vec<(FileId, FileEntry)>, id: &FileId) -> (r: Option<usize>)
    ensures
        r matches Some(i) ==> i < files@.len() && files@[i as int].0@ == id@,
        r is None ==> !has_key(files@, id@),
{
    let mut i: usize = 0;
    while i < files.len()
        invariant
            i <= files@.len(),
            forall|j: int| 0 <= j < i ==> files@[j].0@ != id@,
        decreases files@.len() - i,
    {
        if file_id_eq(&files[i].0, id) {
            return Some(i);
        }
        i += 1;
    }
    None
}

/// Equality of two storage keys: same package and same path.
fn package_key_eq(a: &PackageKey, b: &PackageKey) -> (r: bool)
    ensures
        r == (a@ == b@),
{
    package_id_eq(&a.package, &b.package) && bytes_eq(&a.path, &b.path)
}

/// The index of the storage entry carrying `key`, if there is one.
fn find_storage_index(storage: &Vec<(PackageKey, Vec<u8>)>, key: &PackageKey) -> (r: Option<usize>)
    ensures
        r matches Some(i) ==> i < storage@.len() && storage@[i as int].0@ == key@,
        r is None ==> !has_key(storage@, key@),
{
    let mut i: usize = 0;
    while i < storage.len()
        invariant
            i <= storage@.len(),
            forall|j: int| 0 <= j < i ==> storage@[j].0@ != key@,
        decreases storage@.len() - i,
    {
        if package_key_eq(&storage[i].0, key) {
            return Some(i);
        }
        i += 1;
    }
    None
}

} // verus!
