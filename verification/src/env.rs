//! Container environment assembly: the reserved variables injected into
//! every app container, and the deterministic reserved-wins merge with
//! the user's frozen snapshot.

use vstd::prelude::*;
use vstd::string::StringSliceAdditionalSpecFns;

use crate::records::EnvVar;

verus! {

/// The views of an environment list.
pub open spec fn env_view(s: Seq<EnvVar>) -> Seq<(Seq<u8>, Seq<u8>)> {
    s.map_values(|e: EnvVar| e@)
}

/// Some entry carries the name `n`.
pub open spec fn env_has_name(s: Seq<(Seq<u8>, Seq<u8>)>, n: Seq<u8>) -> bool {
    exists|i: int| 0 <= i < s.len() && s[i].0 == n
}

/// The reserved-wins merge: every reserved entry, then every user entry
/// whose name no reserved entry carries, in order.
pub open spec fn merge_env_spec(
    reserved: Seq<(Seq<u8>, Seq<u8>)>,
    user: Seq<(Seq<u8>, Seq<u8>)>,
) -> Seq<(Seq<u8>, Seq<u8>)>
    decreases user.len(),
{
    if user.len() == 0 {
        reserved
    } else {
        let d = merge_env_spec(reserved, user.drop_last());
        if env_has_name(reserved, user.last().0) {
            d
        } else {
            d.push(user.last())
        }
    }
}

/// The reserved environment of every app container: the database URL and
/// token under their primary names and compatibility aliases, and the
/// bind address and port.
pub open spec fn default_env_spec(db_url: Seq<u8>, token: Seq<u8>) -> Seq<(Seq<u8>, Seq<u8>)> {
    seq![
        (("PREZEL_DB_URL").spec_bytes(), db_url),
        (("PREZEL_DB_AUTH_TOKEN").spec_bytes(), token),
        (("PREZEL_LIBSQL_URL").spec_bytes(), db_url),
        (("PREZEL_LIBSQL_AUTH_TOKEN").spec_bytes(), token),
        (("ASTRO_DB_REMOTE_URL").spec_bytes(), db_url),
        (("ASTRO_DB_APP_TOKEN").spec_bytes(), token),
        (("HOST").spec_bytes(), ("0.0.0.0").spec_bytes()),
        (("PORT").spec_bytes(), ("80").spec_bytes()),
    ]
}

/// Builds the reserved environment over a database URL and token.
pub fn default_env(db_url: &[u8], token: &[u8]) -> (r: Vec<EnvVar>)
    ensures
        env_view(r@) =~= default_env_spec(db_url@, token@),
{
    let mut out: Vec<EnvVar> = Vec::new();
    out.push(
        EnvVar {
            name: crate::bytes::to_vec("PREZEL_DB_URL".as_bytes()),
            value: crate::bytes::to_vec(db_url),
        },
    );
    out.push(
        EnvVar {
            name: crate::bytes::to_vec("PREZEL_DB_AUTH_TOKEN".as_bytes()),
            value: crate::bytes::to_vec(token),
        },
    );
    out.push(
        EnvVar {
            name: crate::bytes::to_vec("PREZEL_LIBSQL_URL".as_bytes()),
            value: crate::bytes::to_vec(db_url),
        },
    );
    out.push(
        EnvVar {
            name: crate::bytes::to_vec("PREZEL_LIBSQL_AUTH_TOKEN".as_bytes()),
            value: crate::bytes::to_vec(token),
        },
    );
    out.push(
        EnvVar {
            name: crate::bytes::to_vec("ASTRO_DB_REMOTE_URL".as_bytes()),
            value: crate::bytes::to_vec(db_url),
        },
    );
    out.push(
        EnvVar {
            name: crate::bytes::to_vec("ASTRO_DB_APP_TOKEN".as_bytes()),
            value: crate::bytes::to_vec(token),
        },
    );
    out.push(
        EnvVar {
            name: crate::bytes::to_vec("HOST".as_bytes()),
            value: crate::bytes::to_vec("0.0.0.0".as_bytes()),
        },
    );
    out.push(
        EnvVar {
            name: crate::bytes::to_vec("PORT".as_bytes()),
            value: crate::bytes::to_vec("80".as_bytes()),
        },
    );
    out
}

/// Whether any entry of `env` carries the name `n`.
pub fn env_contains_name(env: &Vec<EnvVar>, n: &[u8]) -> (r: bool)
    ensures
        r <==> env_has_name(env_view(env@), n@),
{
    let mut i: usize = 0;
    while i < env.len()
        invariant
            i <= env@.len(),
            forall|j: int| 0 <= j < i ==> env_view(env@)[j].0 != n@,
        decreases env.len() - i,
    {
        proof {
            assert(env_view(env@)[i as int] == env@[i as int]@);
        }
        if crate::bytes::bytes_eq_slice(env[i].name.as_slice(), n) {
            proof {
                assert(env_view(env@)[i as int].0 == n@);
            }
            return true;
        }
        i += 1;
    }
    false
}

/// Merges the reserved environment with the user's frozen snapshot:
/// reserved entries win over user entries of the same name.
pub fn merge_env(reserved: &Vec<EnvVar>, user: &Vec<EnvVar>) -> (r: Vec<EnvVar>)
    ensures
        env_view(r@) == merge_env_spec(env_view(reserved@), env_view(user@)),
{
    let mut out: Vec<EnvVar> = Vec::new();
    let mut i: usize = 0;
    while i < reserved.len()
        invariant
            i <= reserved@.len(),
            env_view(out@) =~= env_view(reserved@).subrange(0, i as int),
        decreases reserved.len() - i,
    {
        proof {
            assert(env_view(reserved@)[i as int] == reserved@[i as int]@);
        }
        let ghost prev = env_view(out@);
        out.push(
            EnvVar {
                name: crate::bytes::to_vec(reserved[i].name.as_slice()),
                value: crate::bytes::to_vec(reserved[i].value.as_slice()),
            },
        );
        proof {
            assert(env_view(out@) =~= prev.push(reserved@[i as int]@));
            assert(prev.push(reserved@[i as int]@) =~= env_view(reserved@).subrange(0, i + 1));
        }
        i += 1;
    }
    proof {
        assert(env_view(reserved@).subrange(0, env_view(reserved@).len() as int) =~= env_view(
            reserved@,
        ));
        assert(env_view(user@).subrange(0, 0) =~= Seq::<(Seq<u8>, Seq<u8>)>::empty());
    }
    let mut j: usize = 0;
    while j < user.len()
        invariant
            j <= user@.len(),
            env_view(out@) == merge_env_spec(
                env_view(reserved@),
                env_view(user@).subrange(0, j as int),
            ),
        decreases user.len() - j,
    {
        proof {
            assert(env_view(user@)[j as int] == user@[j as int]@);
            assert(env_view(user@).subrange(0, j + 1).drop_last() =~= env_view(user@).subrange(
                0,
                j as int,
            ));
            assert(env_view(user@).subrange(0, j + 1).last() == env_view(user@)[j as int]);
        }
        let ghost prev = env_view(out@);
        if !env_contains_name(reserved, user[j].name.as_slice()) {
            out.push(
                EnvVar {
                    name: crate::bytes::to_vec(user[j].name.as_slice()),
                    value: crate::bytes::to_vec(user[j].value.as_slice()),
                },
            );
            proof {
                assert(env_view(out@) =~= prev.push(user@[j as int]@));
            }
        }
        j += 1;
    }
    proof {
        assert(env_view(user@).subrange(0, env_view(user@).len() as int) =~= env_view(user@));
    }
    out
}

} // verus!
