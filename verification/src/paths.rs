//! The managed on-disk layout: the metadata store, per-project and
//! per-branch database data files, and certificate material, all under
//! one root.

use vstd::prelude::*;
use vstd::string::StringSliceAdditionalSpecFns;

use crate::bytes::push_all;

verus! {

/// ASCII slash, the path separator.
pub const SLASH: u8 = 47;

/// The root all managed files live under.
pub open spec fn container_root_seq() -> Seq<u8> {
    ("/opt/prezel").spec_bytes()
}

/// `a` and `b` joined with a path separator.
pub open spec fn join_seq(a: Seq<u8>, b: Seq<u8>) -> Seq<u8> {
    a + seq![SLASH] + b
}

/// The root all managed files live under, as bytes.
pub fn get_container_root() -> (r: Vec<u8>)
    ensures
        r@ == container_root_seq(),
{
    crate::bytes::to_vec("/opt/prezel".as_bytes())
}

/// Joins two path fragments with a separator.
pub fn path_join(a: &[u8], b: &[u8]) -> (r: Vec<u8>)
    ensures
        r@ == join_seq(a@, b@),
{
    let mut out = crate::bytes::to_vec(a);
    out.push(SLASH);
    push_all(&mut out, b);
    proof {
        assert(out@ =~= join_seq(a@, b@));
    }
    out
}

/// The path of the metadata store.
pub fn get_instance_db_path() -> (r: Vec<u8>)
    ensures
        r@ == join_seq(container_root_seq(), ("app.db").spec_bytes()),
{
    let root = get_container_root();
    path_join(root.as_slice(), "app.db".as_bytes())
}

/// The directory request logs are written to.
pub fn get_instance_log_dir() -> (r: Vec<u8>)
    ensures
        r@ == join_seq(container_root_seq(), ("log").spec_bytes()),
{
    let root = get_container_root();
    path_join(root.as_slice(), "log".as_bytes())
}

/// A file that lives both on the host and inside the managed root: a
/// relative folder plus a file name.
#[derive(Clone, Debug)]
pub struct HostFile {
    pub relative_folder_path: Vec<u8>,
    pub filename: Vec<u8>,
}

impl HostFile {
    pub fn new(relative_folder_path: Vec<u8>, filename: Vec<u8>) -> (r: HostFile)
        ensures
            r.relative_folder_path@ == relative_folder_path@,
            r.filename@ == filename@,
    {
        HostFile { relative_folder_path, filename }
    }

    /// The folder as seen from the host, under the host's own root.
    pub fn get_host_folder(&self, host_root: &[u8]) -> (r: Vec<u8>)
        ensures
            r@ == join_seq(host_root@, self.relative_folder_path@),
    {
        path_join(host_root, self.relative_folder_path.as_slice())
    }

    /// The folder under the managed root. The caller creates it on disk
    /// before first use.
    pub fn get_container_folder(&self) -> (r: Vec<u8>)
        ensures
            r@ == join_seq(container_root_seq(), self.relative_folder_path@),
    {
        let root = get_container_root();
        path_join(root.as_slice(), self.relative_folder_path.as_slice())
    }

    /// The full file path under the managed root.
    pub fn get_container_file(&self) -> (r: Vec<u8>)
        ensures
            r@ == join_seq(
                join_seq(container_root_seq(), self.relative_folder_path@),
                self.filename@,
            ),
    {
        let folder = self.get_container_folder();
        path_join(folder.as_slice(), self.filename.as_slice())
    }
}

/// The production database data file of a project:
/// `dbs/{project}/data.db` under the managed root.
pub fn get_project_db_file(project: &[u8]) -> (r: HostFile)
    ensures
        r.relative_folder_path@ == join_seq(("dbs").spec_bytes(), project@),
        r.filename@ == ("data.db").spec_bytes(),
{
    HostFile {
        relative_folder_path: path_join("dbs".as_bytes(), project),
        filename: crate::bytes::to_vec("data.db".as_bytes()),
    }
}

/// The branch database snapshot of a deployment:
/// `dbs/{project}/{slug}/data.db` under the managed root.
pub fn get_branch_db_file(project: &[u8], slug: &[u8]) -> (r: HostFile)
    ensures
        r.relative_folder_path@ == join_seq(join_seq(("dbs").spec_bytes(), project@), slug@),
        r.filename@ == ("data.db").spec_bytes(),
{
    let base = path_join("dbs".as_bytes(), project);
    HostFile {
        relative_folder_path: path_join(base.as_slice(), slug),
        filename: crate::bytes::to_vec("data.db".as_bytes()),
    }
}

/// The certificate PEM of a domain: `certs/{domain}/cert.pem`.
pub fn get_domain_cert_path(domain: &[u8]) -> (r: Vec<u8>)
    ensures
        r@ == join_seq(
            join_seq(join_seq(container_root_seq(), ("certs").spec_bytes()), domain@),
            ("cert.pem").spec_bytes(),
        ),
{
    let root = get_container_root();
    let certs = path_join(root.as_slice(), "certs".as_bytes());
    let dir = path_join(certs.as_slice(), domain);
    path_join(dir.as_slice(), "cert.pem".as_bytes())
}

/// The private key PEM of a domain: `certs/{domain}/key.pem`.
pub fn get_domain_key_path(domain: &[u8]) -> (r: Vec<u8>)
    ensures
        r@ == join_seq(
            join_seq(join_seq(container_root_seq(), ("certs").spec_bytes()), domain@),
            ("key.pem").spec_bytes(),
        ),
{
    let root = get_container_root();
    let certs = path_join(root.as_slice(), "certs".as_bytes());
    let dir = path_join(certs.as_slice(), domain);
    path_join(dir.as_slice(), "key.pem".as_bytes())
}

/// An intermediate certificate: `intermediates/{name}.pem`.
pub fn get_intermediate_domain_path(name: &[u8]) -> (r: Vec<u8>)
    ensures
        r@ == join_seq(
            join_seq(container_root_seq(), ("intermediates").spec_bytes()),
            name@ + (".pem").spec_bytes(),
        ),
{
    let root = get_container_root();
    let dir = path_join(root.as_slice(), "intermediates".as_bytes());
    let mut file = crate::bytes::to_vec(name);
    push_all(&mut file, ".pem".as_bytes());
    path_join(dir.as_slice(), file.as_slice())
}

} // verus!
