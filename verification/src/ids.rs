//! Identifiers for packages and files.
//!
//! A package is named by a (namespace, name, version) triple; a file either
//! belongs to a package at an archive-relative path or names a path relative
//! to the compilation root with no package.  All components are held as raw
//! bytes so that non-ASCII path components round-trip exactly.
use vstd::prelude::*;

use crate::bytes::bytes_eq;
use crate::bytes::clone_bytes;
use crate::bytes::push_all;

verus! {

/// Names one versioned package in the remote registry.
pub struct PackageId {
    pub namespace: Vec<u8>,
    pub name: Vec<u8>,
    pub version: Vec<u8>,
}

/// Mathematical image of a [`PackageId`].
pub ghost struct PackageIdView {
    pub namespace: Seq<u8>,
    pub name: Seq<u8>,
    pub version: Seq<u8>,
}

impl View for PackageId {
    type V = PackageIdView;

    open spec fn view(&self) -> PackageIdView {
        PackageIdView {
            namespace: self.namespace@,
            name: self.name@,
            version: self.version@,
        }
    }
}

/// Names one resolvable file: either package-scoped or root-relative.
pub struct FileId {
    pub package: Option<PackageId>,
    pub path: Vec<u8>,
}

/// Mathematical image of a [`FileId`].
pub ghost struct FileIdView {
    pub package: Option<PackageIdView>,
    pub path: Seq<u8>,
}

impl View for FileId {
    type V = FileIdView;

    open spec fn view(&self) -> FileIdView {
        FileIdView {
            package: match self.package {
                Some(p) => Some(p@),
                None => None,
            },
            path: self.path@,
        }
    }
}

impl Clone for PackageId {
    fn clone(&self) -> (r: Self)
        ensures
            r@ == self@,
    {
        PackageId {
            namespace: clone_bytes(&self.namespace),
            name: clone_bytes(&self.name),
            version: clone_bytes(&self.version),
        }
    }
}

impl Clone for FileId {
    fn clone(&self) -> (r: Self)
        ensures
            r@ == self@,
    {
        FileId {
            package: match &self.package {
                Some(p) => Some(p.clone()),
                None => None,
            },
            path: clone_bytes(&self.path),
        }
    }
}

/// Equality of two package identifiers, component by component.
pub fn package_id_eq(a: &PackageId, b: &PackageId) -> (r: bool)
    ensures
        r == (a@ == b@),
{
    let r = bytes_eq(&a.namespace, &b.namespace) && bytes_eq(&a.name, &b.name)
        && bytes_eq(&a.version, &b.version);
    r
}

/// Equality of two file identifiers: same package (or both package-free) and
/// the same path.
pub fn file_id_eq(a: &FileId, b: &FileId) -> (r: bool)
    ensures
        r == (a@ == b@),
{
    let packages_agree = match (&a.package, &b.package) {
        (Some(pa), Some(pb)) => package_id_eq(pa, pb),
        (None, None) => true,
        _ => false,
    };
    packages_agree && bytes_eq(&a.path, &b.path)
}

/// The relative path of the marker file whose presence in per-package storage
/// records that the package's archive has already been unpacked.
pub open spec fn marker_path() -> Seq<u8> {
    seq![116u8, 121u8, 112u8, 115u8, 116u8, 46u8, 116u8, 111u8, 109u8, 108u8]
}

/// The marker path (`typst.toml`) as a byte vector.
pub fn marker_path_bytes() -> (r: Vec<u8>)
    ensures
        r@ == marker_path(),
{
    let mut v: Vec<u8> = Vec::new();
    v.push(116);
    v.push(121);
    v.push(112);
    v.push(115);
    v.push(116);
    v.push(46);
    v.push(116);
    v.push(111);
    v.push(109);
    v.push(108);
    proof {
        assert(v@ =~= marker_path());
    }
    v
}

/// The scheme-and-host prefix of every registry download address.
pub open spec fn registry_prefix() -> Seq<u8> {
    seq![
        104u8, 116u8, 116u8, 112u8, 115u8, 58u8, 47u8, 47u8, 112u8, 97u8, 99u8, 107u8, 97u8,
        103u8, 101u8, 115u8, 46u8, 116u8, 121u8, 112u8, 115u8, 116u8, 46u8, 111u8, 114u8, 103u8,
        47u8,
    ]
}

/// The archive suffix (`.tar.gz`) of every registry download address.
pub open spec fn archive_suffix() -> Seq<u8> {
    seq![46u8, 116u8, 97u8, 114u8, 46u8, 103u8, 122u8]
}

/// The address a package's archive is fetched from:
/// `registry-base/namespace/name-version.tar.gz`.
pub open spec fn package_url_of(p: PackageIdView) -> Seq<u8> {
    registry_prefix() + p.namespace + seq![47u8] + p.name + seq![45u8] + p.version
        + archive_suffix()
}

impl PackageId {
    /// Builds the deterministic registry download address for this package.
    pub fn url(&self) -> (r: Vec<u8>)
        ensures
            r@ == package_url_of(self@),
    {
        let mut v: Vec<u8> = Vec::new();
        v.push(104);
        v.push(116);
        v.push(116);
        v.push(112);
        v.push(115);
        v.push(58);
        v.push(47);
        v.push(47);
        v.push(112);
        v.push(97);
        v.push(99);
        v.push(107);
        v.push(97);
        v.push(103);
        v.push(101);
        v.push(115);
        v.push(46);
        v.push(116);
        v.push(121);
        v.push(112);
        v.push(115);
        v.push(116);
        v.push(46);
        v.push(111);
        v.push(114);
        v.push(103);
        v.push(47);
        proof {
            assert(v@ =~= registry_prefix());
        }
        push_all(&mut v, &self.namespace);
        v.push(47);
        push_all(&mut v, &self.name);
        v.push(45);
        push_all(&mut v, &self.version);
        v.push(46);
        v.push(116);
        v.push(97);
        v.push(114);
        v.push(46);
        v.push(103);
        v.push(122);
        proof {
            assert(v@ =~= package_url_of(self@));
        }
        v
    }
}

} // verus!
