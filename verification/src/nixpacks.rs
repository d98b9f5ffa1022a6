//! The auto-Dockerfile generator's collaborators: the provider roster,
//! and the Astro provider's detection, start-phase and Node-version
//! decisions.

use vstd::prelude::*;
use vstd::string::StringSliceAdditionalSpecFns;

use crate::bytes::{sub_vec, to_vec};
use crate::container::opt_view;

verus! {

/// One build-plan provider of the generator roster.
#[derive(Clone, Copy, Debug, PartialEq, Eq, Structural)]
pub enum ProviderKind {
    Astro,
    Crystal,
    CSharp,
    Dart,
    Elixir,
    Deno,
    FSharp,
    Clojure,
    Gleam,
    Golang,
    HaskellStack,
    Java,
    Lunatic,
    Scala,
    Php,
    Ruby,
    Node,
    Python,
    Rust,
    Swift,
    Staticfile,
    Zig,
    Cobol,
}

/// The provider roster, in probe order: the Astro provider first, the
/// general Node provider late so the specific ones win.
pub open spec fn providers_spec() -> Seq<ProviderKind> {
    seq![
        ProviderKind::Astro,
        ProviderKind::Crystal,
        ProviderKind::CSharp,
        ProviderKind::Dart,
        ProviderKind::Elixir,
        ProviderKind::Deno,
        ProviderKind::FSharp,
        ProviderKind::Clojure,
        ProviderKind::Gleam,
        ProviderKind::Golang,
        ProviderKind::HaskellStack,
        ProviderKind::Java,
        ProviderKind::Lunatic,
        ProviderKind::Scala,
        ProviderKind::Php,
        ProviderKind::Ruby,
        ProviderKind::Node,
        ProviderKind::Python,
        ProviderKind::Rust,
        ProviderKind::Swift,
        ProviderKind::Staticfile,
        ProviderKind::Zig,
        ProviderKind::Cobol,
    ]
}

/// The provider roster handed to the generator.
pub fn get_providers() -> (r: Vec<ProviderKind>)
    ensures
        r@ =~= providers_spec(),
{
    let mut out: Vec<ProviderKind> = Vec::new();
    out.push(ProviderKind::Astro);
    out.push(ProviderKind::Crystal);
    out.push(ProviderKind::CSharp);
    out.push(ProviderKind::Dart);
    out.push(ProviderKind::Elixir);
    out.push(ProviderKind::Deno);
    out.push(ProviderKind::FSharp);
    out.push(ProviderKind::Clojure);
    out.push(ProviderKind::Gleam);
    out.push(ProviderKind::Golang);
    out.push(ProviderKind::HaskellStack);
    out.push(ProviderKind::Java);
    out.push(ProviderKind::Lunatic);
    out.push(ProviderKind::Scala);
    out.push(ProviderKind::Php);
    out.push(ProviderKind::Ruby);
    out.push(ProviderKind::Node);
    out.push(ProviderKind::Python);
    out.push(ProviderKind::Rust);
    out.push(ProviderKind::Swift);
    out.push(ProviderKind::Staticfile);
    out.push(ProviderKind::Zig);
    out.push(ProviderKind::Cobol);
    out
}

/// The start phase the Astro provider appends to a Node build plan.
#[derive(Clone, Debug)]
pub struct StartPhase {
    pub cmd: Vec<u8>,
    pub run_image: Vec<u8>,
    pub file_deps: Vec<Vec<u8>>,
}

/// The Astro provider.
#[derive(Clone, Copy, Debug)]
pub struct AstroProvider;

impl AstroProvider {
    /// The provider's name.
    pub fn name(&self) -> (r: Vec<u8>)
        ensures
            r@ == ("astro").spec_bytes(),
    {
        to_vec("astro".as_bytes())
    }

    /// An app is an Astro app exactly when it carries an
    /// `astro.config.mjs`.
    pub fn detect(&self, includes_astro_config: bool) -> (r: bool)
        ensures
            r == includes_astro_config,
    {
        includes_astro_config
    }

    /// The start phase to append when the Node plan has none: the built
    /// site is served statically from the bundled web server image. (The
    /// server-rendered path would go by the server command, which is
    /// never selected; see `get_server_command`.)
    pub fn get_build_plan(&self, has_start_phase: bool) -> (r: Option<StartPhase>)
        ensures
            has_start_phase ==> r is None,
            !has_start_phase ==> (r matches Some(p) && {
                &&& p.cmd@ == (
                "rm -fr /usr/local/apache2/htdocs && mv /app/dist /usr/local/apache2/htdocs && /usr/local/apache2/bin/httpd -DFOREGROUND").spec_bytes()
                &&& p.run_image@ == (
                "httpd:2.4.63-alpine\nENTRYPOINT [\"/bin/sh\", \"-l\", \"-c\"]\nRUN echo \\").spec_bytes()
                &&& p.file_deps@.map_values(|d: Vec<u8>| d@) =~= seq![("./dist").spec_bytes()]
            }),
    {
        if has_start_phase {
            None
        } else {
            let mut file_deps: Vec<Vec<u8>> = Vec::new();
            file_deps.push(to_vec("./dist".as_bytes()));
            Some(
                StartPhase {
                    cmd: to_vec(
                        "rm -fr /usr/local/apache2/htdocs && mv /app/dist /usr/local/apache2/htdocs && /usr/local/apache2/bin/httpd -DFOREGROUND".as_bytes(),
                    ),
                    run_image: to_vec(
                        "httpd:2.4.63-alpine\nENTRYPOINT [\"/bin/sh\", \"-l\", \"-c\"]\nRUN echo \\".as_bytes(),
                    ),
                    file_deps,
                },
            )
        }
    }
}

/// The server command of a package manifest. The server-rendered path is
/// disabled: no script ever selects it, so the static site path is
/// always taken.
pub fn get_server_command(scripts: &Vec<(Vec<u8>, Vec<u8>)>) -> (r: Option<Vec<u8>>)
    ensures
        r is None,
{
    None
}

/// Why a generated build plan cannot be turned into an image.
#[derive(Clone, Copy, Debug, PartialEq, Eq, Structural)]
pub enum PlanError {
    /// No provider produced any phase for this app.
    NoPlan,
    /// Phases exist but no start command could be found.
    NoStartCommand,
}

/// Gates a generated build plan before the image build: a plan with no
/// phases is rejected, and so is one whose start phase carries no
/// command.
pub fn validate_build_plan(phase_count: usize, has_start_cmd: bool) -> (r: Result<(), PlanError>)
    ensures
        phase_count == 0 ==> r == Err::<(), PlanError>(PlanError::NoPlan),
        phase_count > 0 && !has_start_cmd ==> r == Err::<(), PlanError>(
            PlanError::NoStartCommand,
        ),
        phase_count > 0 && has_start_cmd ==> r is Ok,
{
    if phase_count == 0 {
        Err(PlanError::NoPlan)
    } else if !has_start_cmd {
        Err(PlanError::NoStartCommand)
    } else {
        Ok(())
    }
}

/// The byte is ASCII whitespace: space, tab, line feed or carriage
/// return.
pub open spec fn is_ws(b: u8) -> bool {
    b == 32 || b == 9 || b == 10 || b == 13
}

/// `s` without its leading whitespace.
pub open spec fn trim_left(s: Seq<u8>) -> Seq<u8>
    decreases s.len(),
{
    if s.len() > 0 && is_ws(s[0]) {
        trim_left(s.subrange(1, s.len() as int))
    } else {
        s
    }
}

/// `s` without its trailing whitespace.
pub open spec fn trim_right(s: Seq<u8>) -> Seq<u8>
    decreases s.len(),
{
    if s.len() > 0 && is_ws(s.last()) {
        trim_right(s.drop_last())
    } else {
        s
    }
}

/// `s` without leading and trailing whitespace.
pub open spec fn trim_spec(s: Seq<u8>) -> Seq<u8> {
    trim_right(trim_left(s))
}

/// `s` with every `'v'` removed.
pub open spec fn strip_v_spec(s: Seq<u8>) -> Seq<u8>
    decreases s.len(),
{
    if s.len() == 0 {
        s
    } else {
        let d = strip_v_spec(s.drop_last());
        if s.last() == 118 {
            d
        } else {
            d.push(s.last())
        }
    }
}

/// If the first `k` bytes are whitespace and the next one is not,
/// trimming from the left drops exactly those `k`.
proof fn lemma_trim_left_at(s: Seq<u8>, k: int)
    requires
        0 <= k <= s.len(),
        forall|j: int| 0 <= j < k ==> is_ws(s[j]),
        k < s.len() ==> !is_ws(s[k]),
    ensures
        trim_left(s) == s.subrange(k, s.len() as int),
    decreases k,
{
    if k == 0 {
        assert(s.subrange(0, s.len() as int) =~= s);
    } else {
        let s2 = s.subrange(1, s.len() as int);
        lemma_trim_left_at(s2, k - 1);
        assert(s2.subrange(k - 1, s2.len() as int) =~= s.subrange(k, s.len() as int));
    }
}

/// If the bytes from `k` on are whitespace and the one before is not,
/// trimming from the right keeps exactly the first `k`.
proof fn lemma_trim_right_at(s: Seq<u8>, k: int)
    requires
        0 <= k <= s.len(),
        forall|j: int| k <= j < s.len() ==> is_ws(s[j]),
        k > 0 ==> !is_ws(s[k - 1]),
    ensures
        trim_right(s) == s.subrange(0, k),
    decreases s.len(),
{
    if k == s.len() {
        assert(s.subrange(0, s.len() as int) =~= s);
    } else {
        lemma_trim_right_at(s.drop_last(), k);
        assert(s.drop_last().subrange(0, k) =~= s.subrange(0, k));
    }
}

/// Trims ASCII whitespace off both ends.
pub fn trim(s: &[u8]) -> (r: Vec<u8>)
    ensures
        r@ == trim_spec(s@),
{
    let mut a: usize = 0;
    while a < s.len() && (s[a] == 32 || s[a] == 9 || s[a] == 10 || s[a] == 13)
        invariant
            a <= s@.len(),
            forall|j: int| 0 <= j < a ==> is_ws(s@[j]),
        decreases s.len() - a,
    {
        a += 1;
    }
    proof {
        lemma_trim_left_at(s@, a as int);
    }
    if a == s.len() {
        proof {
            assert(s@.subrange(a as int, s@.len() as int) =~= Seq::<u8>::empty());
        }
        return Vec::new();
    }
    let mut b: usize = s.len();
    while b > a + 1 && (s[b - 1] == 32 || s[b - 1] == 9 || s[b - 1] == 10 || s[b - 1] == 13)
        invariant
            a < b <= s@.len(),
            forall|j: int| b <= j < s@.len() ==> is_ws(s@[j]),
        decreases b,
    {
        b -= 1;
    }
    proof {
        let tl = s@.subrange(a as int, s@.len() as int);
        lemma_trim_right_at(tl, b - a);
        assert(tl.subrange(0, b - a) =~= s@.subrange(a as int, b as int));
    }
    sub_vec(s, a, b)
}

/// Removes every `'v'`.
pub fn strip_v(s: &[u8]) -> (r: Vec<u8>)
    ensures
        r@ == strip_v_spec(s@),
{
    let mut out: Vec<u8> = Vec::new();
    let mut i: usize = 0;
    proof {
        assert(s@.subrange(0, 0) =~= Seq::<u8>::empty());
    }
    while i < s.len()
        invariant
            i <= s@.len(),
            out@ == strip_v_spec(s@.subrange(0, i as int)),
        decreases s.len() - i,
    {
        proof {
            assert(s@.subrange(0, i + 1).drop_last() =~= s@.subrange(0, i as int));
            assert(s@.subrange(0, i + 1).last() == s@[i as int]);
        }
        if s[i] != 118 {
            out.push(s[i]);
        }
        i += 1;
    }
    proof {
        assert(s@.subrange(0, s@.len() as int) =~= s@);
    }
    out
}

/// The Node version a plan runs on: the environment's setting first,
/// then the manifest's engine range, then the `.nvmrc` content trimmed
/// and with `v` markers removed; absent all three, or given `"*"`, the
/// default.
pub open spec fn node_version_spec(
    env_version: Option<Seq<u8>>,
    pkg_version: Option<Seq<u8>>,
    nvmrc: Option<Seq<u8>>,
) -> Seq<u8> {
    let chosen: Option<Seq<u8>> = if env_version is Some {
        env_version
    } else if pkg_version is Some {
        pkg_version
    } else {
        match nvmrc {
            Some(n) => Some(strip_v_spec(trim_spec(n))),
            None => None,
        }
    };
    match chosen {
        Some(v) => if v == ("*").spec_bytes() {
            ("18").spec_bytes()
        } else {
            v
        },
        None => ("18").spec_bytes(),
    }
}

/// Resolves the Node version from the three sources, per
/// `node_version_spec`.
pub fn get_node_version(
    env_version: &Option<Vec<u8>>,
    pkg_version: &Option<Vec<u8>>,
    nvmrc: &Option<Vec<u8>>,
) -> (r: Vec<u8>)
    ensures
        r@ == node_version_spec(opt_view(*env_version), opt_view(*pkg_version), opt_view(*nvmrc)),
{
    let chosen: Option<Vec<u8>> = match env_version {
        Some(v) => Some(to_vec(v.as_slice())),
        None => match pkg_version {
            Some(v) => Some(to_vec(v.as_slice())),
            None => match nvmrc {
                Some(n) => {
                    let t = trim(n.as_slice());
                    Some(strip_v(t.as_slice()))
                },
                None => None,
            },
        },
    };
    match chosen {
        Some(v) => {
            if crate::bytes::bytes_eq_slice(v.as_slice(), "*".as_bytes()) {
                to_vec("18".as_bytes())
            } else {
                v
            }
        },
        None => to_vec("18".as_bytes()),
    }
}

} // verus!
