//! The frozen per-deployment configuration: visibility and build backend,
//! plus the flat string form it is persisted under.

use vstd::prelude::*;

use crate::bytes::bytes_eq;

verus! {

/// Who may reach a deployment's app container.
#[derive(Clone, Copy, Debug, PartialEq, Eq, Structural)]
pub enum Visibility {
    Standard,
    Public,
    Private,
}

/// The build recipe a deployment is pinned to.
#[derive(Clone, Debug, PartialEq)]
pub enum Build {
    Dockerfile { path: Option<Vec<u8>> },
    Nixpacks { provider: Option<Vec<u8>> },
}

/// A deployment's frozen configuration; both fields optional.
#[derive(Clone, Debug, PartialEq)]
pub struct DeploymentConfig {
    pub visibility: Option<Visibility>,
    pub build: Option<Build>,
}

/// The flat, string-keyed form of a configuration, as persisted.
#[derive(Clone, Debug, PartialEq)]
pub struct FlatDeploymentConfig {
    pub visibility: Option<Vec<u8>>,
    pub backend: Option<Vec<u8>>,
    pub dockerfile_path: Option<Vec<u8>>,
    pub provider: Option<Vec<u8>>,
}

/// The mathematical shape of the flat form.
pub struct FlatSpec {
    pub visibility: Option<Seq<u8>>,
    pub backend: Option<Seq<u8>>,
    pub dockerfile_path: Option<Seq<u8>>,
    pub provider: Option<Seq<u8>>,
}

impl View for FlatDeploymentConfig {
    type V = FlatSpec;

    open spec fn view(&self) -> FlatSpec {
        FlatSpec {
            visibility: match &self.visibility {
                Some(s) => Some(s@),
                None => None,
            },
            backend: match &self.backend {
                Some(s) => Some(s@),
                None => None,
            },
            dockerfile_path: match &self.dockerfile_path {
                Some(s) => Some(s@),
                None => None,
            },
            provider: match &self.provider {
                Some(s) => Some(s@),
                None => None,
            },
        }
    }
}

/// The mathematical shape of a build recipe.
pub enum BuildSpec {
    Dockerfile { path: Option<Seq<u8>> },
    Nixpacks { provider: Option<Seq<u8>> },
}

/// The mathematical shape of a deployment configuration.
pub struct ConfigSpec {
    pub visibility: Option<Visibility>,
    pub build: Option<BuildSpec>,
}

impl View for Build {
    type V = BuildSpec;

    open spec fn view(&self) -> BuildSpec {
        match self {
            Build::Dockerfile { path: Some(p) } => BuildSpec::Dockerfile { path: Some(p@) },
            Build::Dockerfile { path: None } => BuildSpec::Dockerfile { path: None },
            Build::Nixpacks { provider: Some(p) } => BuildSpec::Nixpacks { provider: Some(p@) },
            Build::Nixpacks { provider: None } => BuildSpec::Nixpacks { provider: None },
        }
    }
}

impl View for DeploymentConfig {
    type V = ConfigSpec;

    open spec fn view(&self) -> ConfigSpec {
        ConfigSpec {
            visibility: self.visibility,
            build: match &self.build {
                Some(b) => Some(b@),
                None => None,
            },
        }
    }
}

/// The bytes of `"standard"`.
pub open spec fn standard_seq() -> Seq<u8> {
    seq![115u8, 116u8, 97u8, 110u8, 100u8, 97u8, 114u8, 100u8]
}

/// The bytes of `"public"`.
pub open spec fn public_seq() -> Seq<u8> {
    seq![112u8, 117u8, 98u8, 108u8, 105u8, 99u8]
}

/// The bytes of `"private"`.
pub open spec fn private_seq() -> Seq<u8> {
    seq![112u8, 114u8, 105u8, 118u8, 97u8, 116u8, 101u8]
}

/// The bytes of `"dockerfile"`.
pub open spec fn dockerfile_seq() -> Seq<u8> {
    seq![100u8, 111u8, 99u8, 107u8, 101u8, 114u8, 102u8, 105u8, 108u8, 101u8]
}

/// The bytes of `"nixpacks"`.
pub open spec fn nixpacks_seq() -> Seq<u8> {
    seq![110u8, 105u8, 120u8, 112u8, 97u8, 99u8, 107u8, 115u8]
}

/// The bytes of `"Dockerfile"`, the default recipe path.
pub open spec fn default_dockerfile_seq() -> Seq<u8> {
    seq![68u8, 111u8, 99u8, 107u8, 101u8, 114u8, 102u8, 105u8, 108u8, 101u8]
}

/// The string a visibility is stored as.
pub open spec fn visibility_seq(v: Visibility) -> Seq<u8> {
    match v {
        Visibility::Standard => standard_seq(),
        Visibility::Public => public_seq(),
        Visibility::Private => private_seq(),
    }
}

/// The visibility a stored string decodes to, if any.
pub open spec fn visibility_of_seq(s: Seq<u8>) -> Option<Visibility> {
    if s == standard_seq() {
        Some(Visibility::Standard)
    } else if s == public_seq() {
        Some(Visibility::Public)
    } else if s == private_seq() {
        Some(Visibility::Private)
    } else {
        None
    }
}

pub fn standard_bytes() -> (r: Vec<u8>)
    ensures
        r@ == standard_seq(),
{
    let r: Vec<u8> = vec![115u8, 116u8, 97u8, 110u8, 100u8, 97u8, 114u8, 100u8];
    proof {
        assert(r@ =~= standard_seq());
    }
    r
}

pub fn public_bytes() -> (r: Vec<u8>)
    ensures
        r@ == public_seq(),
{
    let r: Vec<u8> = vec![112u8, 117u8, 98u8, 108u8, 105u8, 99u8];
    proof {
        assert(r@ =~= public_seq());
    }
    r
}

pub fn private_bytes() -> (r: Vec<u8>)
    ensures
        r@ == private_seq(),
{
    let r: Vec<u8> = vec![112u8, 114u8, 105u8, 118u8, 97u8, 116u8, 101u8];
    proof {
        assert(r@ =~= private_seq());
    }
    r
}

pub fn dockerfile_bytes() -> (r: Vec<u8>)
    ensures
        r@ == dockerfile_seq(),
{
    let r: Vec<u8> = vec![100u8, 111u8, 99u8, 107u8, 101u8, 114u8, 102u8, 105u8, 108u8, 101u8];
    proof {
        assert(r@ =~= dockerfile_seq());
    }
    r
}

pub fn nixpacks_bytes() -> (r: Vec<u8>)
    ensures
        r@ == nixpacks_seq(),
{
    let r: Vec<u8> = vec![110u8, 105u8, 120u8, 112u8, 97u8, 99u8, 107u8, 115u8];
    proof {
        assert(r@ =~= nixpacks_seq());
    }
    r
}

pub fn default_dockerfile_path() -> (r: Vec<u8>)
    ensures
        r@ == default_dockerfile_seq(),
{
    let r: Vec<u8> = vec![68u8, 111u8, 99u8, 107u8, 101u8, 114u8, 102u8, 105u8, 108u8, 101u8];
    proof {
        assert(r@ =~= default_dockerfile_seq());
    }
    r
}

/// A flat configuration that names an unknown visibility or backend.
#[derive(Clone, Copy, Debug, PartialEq, Eq, Structural)]
pub enum ConfigError {
    UnknownVisibility,
    UnknownBackend,
}

/// The flat form a configuration is persisted as: the visibility and
/// backend strings, the Dockerfile path under the Dockerfile backend,
/// the provider under the Nixpacks backend.
pub open spec fn flat_of_config(c: ConfigSpec) -> FlatSpec {
    FlatSpec {
        visibility: match c.visibility {
            Some(v) => Some(visibility_seq(v)),
            None => None,
        },
        backend: match c.build {
            Some(BuildSpec::Dockerfile { .. }) => Some(dockerfile_seq()),
            Some(BuildSpec::Nixpacks { .. }) => Some(nixpacks_seq()),
            None => None,
        },
        dockerfile_path: match c.build {
            Some(BuildSpec::Dockerfile { path }) => path,
            _ => None,
        },
        provider: match c.build {
            Some(BuildSpec::Nixpacks { provider }) => provider,
            _ => None,
        },
    }
}

/// The configuration a flat form decodes to. Rejected are exactly the
/// flat forms that name an unknown backend, and, after that, those that
/// name an unknown visibility.
pub open spec fn config_of_flat(f: FlatSpec) -> Result<ConfigSpec, ConfigError> {
    if f.backend matches Some(b) && b != dockerfile_seq() && b != nixpacks_seq() {
        Err(ConfigError::UnknownBackend)
    } else if f.visibility matches Some(s) && visibility_of_seq(s) is None {
        Err(ConfigError::UnknownVisibility)
    } else {
        Ok(
            ConfigSpec {
                visibility: match f.visibility {
                    Some(s) => visibility_of_seq(s),
                    None => None,
                },
                build: match f.backend {
                    Some(b) => if b == dockerfile_seq() {
                        Some(BuildSpec::Dockerfile { path: f.dockerfile_path })
                    } else {
                        Some(BuildSpec::Nixpacks { provider: f.provider })
                    },
                    None => None,
                },
            },
        )
    }
}

/// A frozen configuration never changes across persistence: decoding the
/// flat form a configuration flattens to yields that configuration back,
/// for every configuration.
pub proof fn lemma_flat_round_trip(c: ConfigSpec)
    ensures
        config_of_flat(flat_of_config(c)) == Ok::<ConfigSpec, ConfigError>(c),
{
    assert(standard_seq().len() == 8);
    assert(public_seq().len() == 6);
    assert(private_seq().len() == 7);
    assert(dockerfile_seq().len() == 10);
    assert(nixpacks_seq().len() == 8);
    match c.visibility {
        Some(v) => {
            assert(visibility_of_seq(visibility_seq(v)) == Some(v));
        },
        None => {},
    }
    assert(config_of_flat(flat_of_config(c))->Ok_0 == c);
}

impl DeploymentConfig {
    /// The effective visibility: the stored one, defaulting to standard.
    pub fn get_visibility(&self) -> (r: Visibility)
        ensures
            match self.visibility {
                Some(v) => r == v,
                None => r == Visibility::Standard,
            },
    {
        match &self.visibility {
            Some(v) => *v,
            None => Visibility::Standard,
        }
    }

    /// The Dockerfile path this deployment is pinned to, if the recipe is
    /// a Dockerfile: the stored path, defaulting to `"Dockerfile"`.
    pub fn get_forced_dockerfile(&self) -> (r: Option<Vec<u8>>)
        ensures
            match self.build {
                Some(Build::Dockerfile { path: Some(p) }) => r matches Some(v) && v@ == p@,
                Some(Build::Dockerfile { path: None }) => r matches Some(v) && v@
                    == default_dockerfile_seq(),
                _ => r is None,
            },
    {
        match &self.build {
            Some(Build::Dockerfile { path }) => match path {
                Some(p) => Some(p.clone()),
                None => Some(default_dockerfile_path()),
            },
            _ => None,
        }
    }

    /// Whether this deployment is pinned to the Nixpacks recipe.
    pub fn is_forced_nixpacks(&self) -> (r: bool)
        ensures
            r <==> self.build matches Some(Build::Nixpacks { .. }),
    {
        match &self.build {
            Some(Build::Nixpacks { .. }) => true,
            _ => false,
        }
    }

    /// Flattens the configuration to its persisted string form.
    pub fn to_flat(&self) -> (r: FlatDeploymentConfig)
        ensures
            r@ == flat_of_config(self@),
    {
        let visibility: Option<Vec<u8>> = match &self.visibility {
            Some(Visibility::Standard) => Some(standard_bytes()),
            Some(Visibility::Public) => Some(public_bytes()),
            Some(Visibility::Private) => Some(private_bytes()),
            None => None,
        };
        let (backend, dockerfile_path, provider): (
            Option<Vec<u8>>,
            Option<Vec<u8>>,
            Option<Vec<u8>>,
        ) = match &self.build {
            Some(Build::Dockerfile { path: Some(p) }) => (
                Some(dockerfile_bytes()),
                Some(p.clone()),
                None,
            ),
            Some(Build::Dockerfile { path: None }) => (Some(dockerfile_bytes()), None, None),
            Some(Build::Nixpacks { provider: Some(p) }) => (
                Some(nixpacks_bytes()),
                None,
                Some(p.clone()),
            ),
            Some(Build::Nixpacks { provider: None }) => (Some(nixpacks_bytes()), None, None),
            None => (None, None, None),
        };
        FlatDeploymentConfig { visibility, backend, dockerfile_path, provider }
    }

    /// Reads a configuration back from its persisted string form. Rejects
    /// exactly the strings that name no known visibility or backend.
    pub fn try_from_flat(flat: FlatDeploymentConfig) -> (r: Result<DeploymentConfig, ConfigError>)
        ensures
            match r {
                Ok(c) => config_of_flat(flat@) == Ok::<ConfigSpec, ConfigError>(c@),
                Err(e) => config_of_flat(flat@) == Err::<ConfigSpec, ConfigError>(e),
            },
    {
        let backend_known: Option<bool> = match &flat.backend {
            Some(b) => {
                if bytes_eq(b, &dockerfile_bytes()) {
                    Some(true)
                } else if bytes_eq(b, &nixpacks_bytes()) {
                    Some(false)
                } else {
                    return Err(ConfigError::UnknownBackend);
                }
            },
            None => None,
        };
        let visibility: Option<Visibility> = match &flat.visibility {
            Some(s) => {
                if bytes_eq(s, &standard_bytes()) {
                    Some(Visibility::Standard)
                } else if bytes_eq(s, &public_bytes()) {
                    Some(Visibility::Public)
                } else if bytes_eq(s, &private_bytes()) {
                    Some(Visibility::Private)
                } else {
                    return Err(ConfigError::UnknownVisibility);
                }
            },
            None => None,
        };
        let build: Option<Build> = match backend_known {
            Some(true) => Some(Build::Dockerfile { path: flat.dockerfile_path }),
            Some(false) => Some(Build::Nixpacks { provider: flat.provider }),
            None => None,
        };
        Ok(DeploymentConfig { visibility, build })
    }
}

impl Default for DeploymentConfig {
    /// The configuration of a deployment with no config file: everything
    /// unset.
    fn default() -> (r: Self)
        ensures
            r.visibility is None,
            r.build is None,
    {
        DeploymentConfig { visibility: None, build: None }
    }
}

} // verus!
