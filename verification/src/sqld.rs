//! The embedded SQL database server container: its image, and the entry
//! command that symlinks a project- or branch-scoped data file into the
//! server's expected layout.

use vstd::prelude::*;
use vstd::string::StringSliceAdditionalSpecFns;

use crate::bytes::push_all;
use crate::container::{BuildResult, ContainerStatus, StatusSpec};

verus! {

/// The container image the database server runs from.
pub open spec fn sqld_image_seq() -> Seq<u8> {
    ("sqld:0.24.28").spec_bytes()
}

/// The part of the entry command before the data file path.
pub open spec fn sqld_cmd_prefix() -> Seq<u8> {
    ("mkdir -p /tmp/db/dbs && printf 0.24.28 > /tmp/db/.version && ln -s ").spec_bytes()
}

/// The part of the entry command after the data file path.
pub open spec fn sqld_cmd_suffix() -> Seq<u8> {
    (" /tmp/db/data && ln -s /tmp/db /tmp/db/dbs/default && /usr/local/bin/docker-wrapper.sh /bin/sqld").spec_bytes()
}

/// The full entry command over a data file path.
pub open spec fn sqld_command_spec(db_path: Seq<u8>) -> Seq<u8> {
    sqld_cmd_prefix() + db_path + sqld_cmd_suffix()
}

/// The fixed environment of the database server container: it listens on
/// the loopback port the proxy forwards to, over the symlinked data dir.
pub open spec fn sqld_env_spec() -> Seq<(Seq<u8>, Seq<u8>)> {
    seq![
        (("SQLD_HTTP_LISTEN_ADDR").spec_bytes(), ("127.0.0.1:80").spec_bytes()),
        (("SQLD_DB_PATH").spec_bytes(), ("/tmp/db").spec_bytes()),
    ]
}

/// Everything needed to create and start a database server container over
/// one data file.
#[derive(Debug)]
pub struct SqldContainer {
    /// The image to pull (never built).
    pub image: Vec<u8>,
    /// The shell command that lays the data file out and starts the server.
    pub command: Vec<u8>,
    /// The environment handed to the container.
    pub env: Vec<(Vec<u8>, Vec<u8>)>,
    /// The host path of the data file, to be bind-mounted.
    pub db_file: Vec<u8>,
    /// The server needs no build step: it resumes as built.
    pub initial_status: ContainerStatus,
    /// The recorded result matching that state.
    pub result: Option<BuildResult>,
}

impl SqldContainer {
    /// Assembles the database server container for a data file living at
    /// `db_path` inside the managed root.
    pub fn new(db_path: &[u8]) -> (r: SqldContainer)
        ensures
            r.image@ == sqld_image_seq(),
            r.command@ == sqld_command_spec(db_path@),
            r.env@.map_values(|e: (Vec<u8>, Vec<u8>)| (e.0@, e.1@)) =~= sqld_env_spec(),
            r.db_file@ == db_path@,
            r.initial_status@ == (StatusSpec::Built { image: sqld_image_seq() }),
            r.result == Some(BuildResult::Built),
    {
        let mut command: Vec<u8> = Vec::new();
        push_all(
            &mut command,
            "mkdir -p /tmp/db/dbs && printf 0.24.28 > /tmp/db/.version && ln -s ".as_bytes(),
        );
        push_all(&mut command, db_path);
        push_all(
            &mut command,
            " /tmp/db/data && ln -s /tmp/db /tmp/db/dbs/default && /usr/local/bin/docker-wrapper.sh /bin/sqld".as_bytes(),
        );
        let image = crate::bytes::to_vec("sqld:0.24.28".as_bytes());
        let mut env: Vec<(Vec<u8>, Vec<u8>)> = Vec::new();
        env.push(
            (
                crate::bytes::to_vec("SQLD_HTTP_LISTEN_ADDR".as_bytes()),
                crate::bytes::to_vec("127.0.0.1:80".as_bytes()),
            ),
        );
        env.push(
            (
                crate::bytes::to_vec("SQLD_DB_PATH".as_bytes()),
                crate::bytes::to_vec("/tmp/db".as_bytes()),
            ),
        );
        let initial_status = ContainerStatus::Built {
            image: crate::bytes::to_vec("sqld:0.24.28".as_bytes()),
        };
        proof {
            assert(Seq::<u8>::empty() + sqld_cmd_prefix() + db_path@ + sqld_cmd_suffix()
                =~= sqld_command_spec(db_path@));
        }
        SqldContainer {
            image,
            command,
            env,
            db_file: crate::bytes::to_vec(db_path),
            initial_status,
            result: Some(BuildResult::Built),
        }
    }
}

} // verus!
