//! The hostname label router: the leftmost dot-separated component of a
//! hostname names a resource of a hosted app. Grammar:
//!
//! ```text
//! label    := project
//!           | project "--" "libsql"
//!           | project "--" slug
//!           | project "--" slug "-" "insert"
//!           | project "--" slug "-" "libsql"
//! hostname := label "." box_domain
//! ```

use vstd::prelude::*;

use crate::bytes::{bytes_eq_slice, push_all, sub_vec, to_vec};

verus! {

/// ASCII hyphen-minus.
pub const DASH: u8 = 45;

/// ASCII full stop.
pub const DOT: u8 = 46;

/// The prefix of the hostname that refers to a resource of a particular app
/// hosted in the server.
#[derive(Debug, PartialEq)]
pub enum Label {
    /// The production deployment of a project, by project name.
    Prod { project: Vec<u8> },
    /// The production database container of a project, by project id.
    ProdDb { project: Vec<u8> },
    /// A particular deployment, by project name and URL slug.
    Deployment { project: Vec<u8>, deployment: Vec<u8> },
    /// A particular deployment with writes to its branch database enabled.
    DeploymentInsert { project: Vec<u8>, deployment: Vec<u8> },
    /// The branch database container of a deployment, by project id and slug.
    BranchDb { project: Vec<u8>, deployment: Vec<u8> },
}

/// The mathematical shape of a label.
pub enum LabelSpec {
    Prod { project: Seq<u8> },
    ProdDb { project: Seq<u8> },
    Deployment { project: Seq<u8>, deployment: Seq<u8> },
    DeploymentInsert { project: Seq<u8>, deployment: Seq<u8> },
    BranchDb { project: Seq<u8>, deployment: Seq<u8> },
}

impl View for Label {
    type V = LabelSpec;

    open spec fn view(&self) -> LabelSpec {
        match self {
            Label::Prod { project } => LabelSpec::Prod { project: project@ },
            Label::ProdDb { project } => LabelSpec::ProdDb { project: project@ },
            Label::Deployment { project, deployment } => LabelSpec::Deployment {
                project: project@,
                deployment: deployment@,
            },
            Label::DeploymentInsert { project, deployment } => LabelSpec::DeploymentInsert {
                project: project@,
                deployment: deployment@,
            },
            Label::BranchDb { project, deployment } => LabelSpec::BranchDb {
                project: project@,
                deployment: deployment@,
            },
        }
    }
}

/// The bytes of `"--"`.
pub open spec fn dd_seq() -> Seq<u8> {
    seq![DASH, DASH]
}

/// The bytes of `"libsql"`.
pub open spec fn libsql_seq() -> Seq<u8> {
    seq![108u8, 105u8, 98u8, 115u8, 113u8, 108u8]
}

/// The bytes of `"insert"`.
pub open spec fn insert_seq() -> Seq<u8> {
    seq![105u8, 110u8, 115u8, 101u8, 114u8, 116u8]
}

/// `"--"` occurs at position `i` of `s`.
pub open spec fn has_dd_at(s: Seq<u8>, i: int) -> bool {
    0 <= i && i + 1 < s.len() && s[i] == DASH && s[i + 1] == DASH
}

/// `s` contains no `"--"`.
pub open spec fn no_dd(s: Seq<u8>) -> bool {
    forall|i: int| !has_dd_at(s, i)
}

/// `s` contains no `'-'`.
pub open spec fn no_dash(s: Seq<u8>) -> bool {
    forall|i: int| 0 <= i < s.len() ==> s[i] != DASH
}

/// `s` contains no `'.'`.
pub open spec fn no_dot(s: Seq<u8>) -> bool {
    forall|i: int| 0 <= i < s.len() ==> s[i] != DOT
}

/// `s` ends with `'-'`.
pub open spec fn ends_dash(s: Seq<u8>) -> bool {
    s.len() > 0 && s[s.len() - 1] == DASH
}

/// The exact byte string a label formats to (without the box domain).
pub open spec fn format_label_spec(l: LabelSpec) -> Seq<u8> {
    match l {
        LabelSpec::Prod { project } => project,
        LabelSpec::ProdDb { project } => project + dd_seq() + libsql_seq(),
        LabelSpec::Deployment { project, deployment } => project + dd_seq() + deployment,
        LabelSpec::DeploymentInsert { project, deployment } => project + dd_seq() + deployment
            + seq![DASH] + insert_seq(),
        LabelSpec::BranchDb { project, deployment } => project + dd_seq() + deployment
            + seq![DASH] + libsql_seq(),
    }
}

/// The exact hostname a label formats to under a box domain.
pub open spec fn format_hostname_spec(l: LabelSpec, box_domain: Seq<u8>) -> Seq<u8> {
    format_label_spec(l) + seq![DOT] + box_domain
}

/// A label is well formed: its parts cannot interfere with the separators,
/// so it survives a format/parse round trip.
pub open spec fn wf_label(l: LabelSpec) -> bool {
    match l {
        LabelSpec::Prod { project } => no_dd(project),
        LabelSpec::ProdDb { project } => no_dd(project) && !ends_dash(project),
        LabelSpec::Deployment { project, deployment } => no_dd(project) && !ends_dash(project)
            && no_dash(deployment) && deployment != libsql_seq(),
        LabelSpec::DeploymentInsert { project, deployment } => no_dd(project) && !ends_dash(
            project,
        ) && no_dash(deployment),
        LabelSpec::BranchDb { project, deployment } => no_dd(project) && !ends_dash(project)
            && no_dash(deployment),
    }
}

/// The parts of a well-formed label additionally contain no dot, so the
/// whole hostname survives a strip/parse/format round trip.
pub open spec fn dotless_label(l: LabelSpec) -> bool {
    match l {
        LabelSpec::Prod { project } => no_dot(project),
        LabelSpec::ProdDb { project } => no_dot(project),
        LabelSpec::Deployment { project, deployment } => no_dot(project) && no_dot(deployment),
        LabelSpec::DeploymentInsert { project, deployment } => no_dot(project) && no_dot(
            deployment,
        ),
        LabelSpec::BranchDb { project, deployment } => no_dot(project) && no_dot(deployment),
    }
}

/// The position of the first `"--"` at or after `from`, if any.
pub open spec fn first_dd_from(s: Seq<u8>, from: int) -> Option<int>
    decreases s.len() - from,
{
    if from + 1 >= s.len() {
        None
    } else if s[from] == DASH && s[from + 1] == DASH {
        Some(from)
    } else {
        first_dd_from(s, from + 1)
    }
}

/// The position of the first `'-'` at or after `from`, if any.
pub open spec fn first_dash_from(s: Seq<u8>, from: int) -> Option<int>
    decreases s.len() - from,
{
    if from >= s.len() {
        None
    } else if s[from] == DASH {
        Some(from)
    } else {
        first_dash_from(s, from + 1)
    }
}

/// What parsing a bare label yields: the unique label that formats to `s`,
/// if one exists.
pub open spec fn parse_label_spec(s: Seq<u8>) -> Option<LabelSpec> {
    match first_dd_from(s, 0) {
        Option::None => Option::Some(LabelSpec::Prod { project: s }),
        Option::Some(i) => {
            let project = s.subrange(0, i);
            let sub = s.subrange(i + 2, s.len() as int);
            if first_dd_from(sub, 0) is Some {
                Option::None
            } else {
                match first_dash_from(sub, 0) {
                    Option::None => if sub == libsql_seq() {
                        Option::Some(LabelSpec::ProdDb { project })
                    } else {
                        Option::Some(LabelSpec::Deployment { project, deployment: sub })
                    },
                    Option::Some(j) => {
                        let deployment = sub.subrange(0, j);
                        let tail = sub.subrange(j + 1, sub.len() as int);
                        if first_dash_from(tail, 0) is Some {
                            Option::None
                        } else if tail == insert_seq() {
                            Option::Some(LabelSpec::DeploymentInsert { project, deployment })
                        } else if tail == libsql_seq() {
                            Option::Some(LabelSpec::BranchDb { project, deployment })
                        } else {
                            Option::None
                        }
                    },
                }
            }
        },
    }
}

/// What stripping the box domain from a hostname and parsing the remaining
/// label yields.
pub open spec fn strip_from_domain_spec(hostname: Seq<u8>, box_domain: Seq<u8>) -> Option<
    LabelSpec,
> {
    if hostname.len() > box_domain.len() && hostname.subrange(
        hostname.len() - box_domain.len(),
        hostname.len() as int,
    ) == box_domain && hostname[hostname.len() - box_domain.len() - 1] == DOT {
        let label = hostname.subrange(0, hostname.len() - box_domain.len() - 1);
        if no_dot(label) {
            parse_label_spec(label)
        } else {
            Option::None
        }
    } else {
        Option::None
    }
}

/// `first_dd_from` returns the least position of `"--"` at or after `from`.
pub proof fn lemma_first_dd_from(s: Seq<u8>, from: int)
    requires
        0 <= from,
    ensures
        match first_dd_from(s, from) {
            Option::Some(i) => from <= i && has_dd_at(s, i) && (forall|j: int|
                from <= j < i ==> !has_dd_at(s, j)),
            Option::None => forall|j: int| from <= j ==> !has_dd_at(s, j),
        },
    decreases s.len() - from,
{
    if from + 1 >= s.len() {
    } else if s[from] == DASH && s[from + 1] == DASH {
    } else {
        lemma_first_dd_from(s, from + 1);
    }
}

/// If the least `"--"` at or after `from` sits at `i`, `first_dd_from`
/// finds exactly `i`.
pub proof fn lemma_first_dd_from_finds(s: Seq<u8>, from: int, i: int)
    requires
        0 <= from <= i,
        has_dd_at(s, i),
        forall|j: int| from <= j < i ==> !has_dd_at(s, j),
    ensures
        first_dd_from(s, from) == Option::Some(i),
    decreases i - from,
{
    if from < i {
        assert(!has_dd_at(s, from));
        lemma_first_dd_from_finds(s, from + 1, i);
    }
}

/// `first_dash_from` returns the least position of `'-'` at or after `from`.
pub proof fn lemma_first_dash_from(s: Seq<u8>, from: int)
    requires
        0 <= from,
    ensures
        match first_dash_from(s, from) {
            Option::Some(i) => from <= i < s.len() && s[i] == DASH && (forall|j: int|
                from <= j < i ==> s[j] != DASH),
            Option::None => forall|j: int| from <= j < s.len() ==> s[j] != DASH,
        },
    decreases s.len() - from,
{
    if from >= s.len() {
    } else if s[from] == DASH {
    } else {
        lemma_first_dash_from(s, from + 1);
    }
}

/// If the least `'-'` at or after `from` sits at `i`, `first_dash_from`
/// finds exactly `i`.
pub proof fn lemma_first_dash_from_finds(s: Seq<u8>, from: int, i: int)
    requires
        0 <= from <= i < s.len(),
        s[i] == DASH,
        forall|j: int| from <= j < i ==> s[j] != DASH,
    ensures
        first_dash_from(s, from) == Option::Some(i),
    decreases i - from,
{
    if from < i {
        lemma_first_dash_from_finds(s, from + 1, i);
    }
}

/// A dash-free byte string holds no separator at all.
pub proof fn lemma_no_dash_facts(s: Seq<u8>)
    requires
        no_dash(s),
    ensures
        no_dd(s),
        first_dd_from(s, 0) is None,
        first_dash_from(s, 0) is None,
{
    assert forall|i: int| !has_dd_at(s, i) by {
        if 0 <= i && i + 1 < s.len() {
            assert(s[i] != DASH);
        }
    }
    if first_dd_from(s, 0) is Some {
        lemma_first_dd_from(s, 0);
        assert(false);
    }
    if first_dash_from(s, 0) is Some {
        lemma_first_dash_from(s, 0);
        assert(false);
    }
}

/// The keyword byte strings contain neither dash nor dot, and differ.
pub proof fn lemma_keyword_facts()
    ensures
        no_dash(libsql_seq()),
        no_dash(insert_seq()),
        no_dot(libsql_seq()),
        no_dot(insert_seq()),
        libsql_seq() != insert_seq(),
{
    assert forall|i: int| 0 <= i < libsql_seq().len() implies libsql_seq()[i] != DASH
        && libsql_seq()[i] != DOT by {
        if i == 0 {
        } else if i == 1 {
        } else if i == 2 {
        } else if i == 3 {
        } else if i == 4 {
        } else {
            assert(i == 5);
        }
    }
    assert forall|i: int| 0 <= i < insert_seq().len() implies insert_seq()[i] != DASH
        && insert_seq()[i] != DOT by {
        if i == 0 {
        } else if i == 1 {
        } else if i == 2 {
        } else if i == 3 {
        } else if i == 4 {
        } else {
            assert(i == 5);
        }
    }
    assert(libsql_seq()[0] != insert_seq()[0]);
}

/// In `p ++ "--" ++ rest` with `p` free of `"--"` and not ending in a dash,
/// the first `"--"` sits exactly at the end of `p`.
pub proof fn lemma_first_dd_at_boundary(p: Seq<u8>, rest: Seq<u8>)
    requires
        no_dd(p),
        !ends_dash(p),
    ensures
        first_dd_from(p + dd_seq() + rest, 0) == Option::Some(p.len() as int),
{
    let s = p + dd_seq() + rest;
    assert(s[p.len() as int] == DASH);
    assert(s[p.len() as int + 1] == DASH);
    assert(has_dd_at(s, p.len() as int));
    assert forall|j: int| 0 <= j < p.len() implies !has_dd_at(s, j) by {
        if j + 1 < p.len() {
            assert(s[j] == p[j]);
            assert(s[j + 1] == p[j + 1]);
            assert(!has_dd_at(p, j));
        } else {
            assert(j == p.len() - 1);
            assert(s[j] == p[j]);
        }
    }
    lemma_first_dd_from_finds(s, 0, p.len() as int);
}

/// In `d ++ "-" ++ t` with `d` and `t` dash-free, the only dash sits at the
/// end of `d`, so the string holds no `"--"` and the first dash is found
/// exactly there.
pub proof fn lemma_single_dash(d: Seq<u8>, t: Seq<u8>)
    requires
        no_dash(d),
        no_dash(t),
    ensures
        no_dd(d + seq![DASH] + t),
        first_dd_from(d + seq![DASH] + t, 0) is None,
        first_dash_from(d + seq![DASH] + t, 0) == Option::Some(d.len() as int),
{
    let s = d + seq![DASH] + t;
    assert forall|i: int| 0 <= i < s.len() && s[i] == DASH implies i == d.len() by {
        if i < d.len() {
            assert(s[i] == d[i]);
        } else if i > d.len() {
            assert(s[i] == t[i - d.len() - 1]);
        }
    }
    assert forall|i: int| !has_dd_at(s, i) by {
        if 0 <= i && i + 1 < s.len() && s[i] == DASH && s[i + 1] == DASH {
            assert(i == d.len() && i + 1 == d.len());
        }
    }
    if first_dd_from(s, 0) is Some {
        lemma_first_dd_from(s, 0);
        assert(false);
    }
    assert(s[d.len() as int] == DASH);
    assert forall|j: int| 0 <= j < d.len() implies s[j] != DASH by {
        assert(s[j] == d[j]);
    }
    lemma_first_dash_from_finds(s, 0, d.len() as int);
}

/// Formatting a well-formed label and parsing the result gives the label
/// back: the grammar is unambiguous on well-formed parts.
pub proof fn lemma_parse_format(l: LabelSpec)
    requires
        wf_label(l),
    ensures
        parse_label_spec(format_label_spec(l)) == Option::Some(l),
{
    lemma_keyword_facts();
    match l {
        LabelSpec::Prod { project } => {
            if first_dd_from(project, 0) is Some {
                lemma_first_dd_from(project, 0);
                assert(false);
            }
        },
        LabelSpec::ProdDb { project } => {
            let s = project + dd_seq() + libsql_seq();
            lemma_first_dd_at_boundary(project, libsql_seq());
            let sub = s.subrange(project.len() as int + 2, s.len() as int);
            assert(sub =~= libsql_seq());
            assert(s.subrange(0, project.len() as int) =~= project);
            lemma_no_dash_facts(libsql_seq());
        },
        LabelSpec::Deployment { project, deployment } => {
            let s = project + dd_seq() + deployment;
            lemma_first_dd_at_boundary(project, deployment);
            let sub = s.subrange(project.len() as int + 2, s.len() as int);
            assert(sub =~= deployment);
            assert(s.subrange(0, project.len() as int) =~= project);
            lemma_no_dash_facts(deployment);
        },
        LabelSpec::DeploymentInsert { project, deployment } => {
            let rest = deployment + seq![DASH] + insert_seq();
            let s = project + dd_seq() + deployment + seq![DASH] + insert_seq();
            assert(s =~= project + dd_seq() + rest);
            lemma_first_dd_at_boundary(project, rest);
            let sub = s.subrange(project.len() as int + 2, s.len() as int);
            assert(sub =~= rest);
            assert(s.subrange(0, project.len() as int) =~= project);
            lemma_single_dash(deployment, insert_seq());
            assert(sub.subrange(0, deployment.len() as int) =~= deployment);
            assert(sub.subrange(deployment.len() as int + 1, sub.len() as int) =~= insert_seq());
            lemma_no_dash_facts(insert_seq());
        },
        LabelSpec::BranchDb { project, deployment } => {
            let rest = deployment + seq![DASH] + libsql_seq();
            let s = project + dd_seq() + deployment + seq![DASH] + libsql_seq();
            assert(s =~= project + dd_seq() + rest);
            lemma_first_dd_at_boundary(project, rest);
            let sub = s.subrange(project.len() as int + 2, s.len() as int);
            assert(sub =~= rest);
            assert(s.subrange(0, project.len() as int) =~= project);
            lemma_single_dash(deployment, libsql_seq());
            assert(sub.subrange(0, deployment.len() as int) =~= deployment);
            assert(sub.subrange(deployment.len() as int + 1, sub.len() as int) =~= libsql_seq());
            lemma_no_dash_facts(libsql_seq());
            assert(sub.subrange(deployment.len() as int + 1, sub.len() as int) != insert_seq());
        },
    }
}

/// Whatever parses, parses soundly: the label is well formed and formats
/// back to the input, byte for byte.
pub proof fn lemma_format_parse(s: Seq<u8>)
    ensures
        parse_label_spec(s) matches Option::Some(l) ==> wf_label(l) && format_label_spec(l) == s,
{
    lemma_keyword_facts();
    lemma_first_dd_from(s, 0);
    match first_dd_from(s, 0) {
        Option::None => {
            assert(no_dd(s));
        },
        Option::Some(i) => {
            let project = s.subrange(0, i);
            let sub = s.subrange(i + 2, s.len() as int);
            assert(s =~= project + dd_seq() + sub);
            assert forall|j: int| !has_dd_at(project, j) by {
                if 0 <= j && j + 1 < project.len() {
                    assert(project[j] == s[j]);
                    assert(project[j + 1] == s[j + 1]);
                    assert(!has_dd_at(s, j));
                }
            }
            if ends_dash(project) {
                assert(s[i - 1] == project[i - 1]);
                assert(has_dd_at(s, i - 1));
                assert(false);
            }
            if first_dd_from(sub, 0) is None {
                lemma_first_dash_from(sub, 0);
                match first_dash_from(sub, 0) {
                    Option::None => {
                        assert(no_dash(sub));
                    },
                    Option::Some(j) => {
                        let deployment = sub.subrange(0, j);
                        let tail = sub.subrange(j + 1, sub.len() as int);
                        lemma_first_dash_from(tail, 0);
                        if first_dash_from(tail, 0) is None {
                            assert(no_dash(deployment));
                            assert(sub =~= deployment + seq![DASH] + tail);
                            assert(s =~= project + dd_seq() + deployment + seq![DASH] + tail);
                        }
                    },
                }
            }
        },
    }
}

/// Every hostname accepted by `strip_from_domain_spec` formats back to
/// itself: `format(parse(h)) == h` over the hostname grammar.
pub proof fn lemma_hostname_round_trip(hostname: Seq<u8>, box_domain: Seq<u8>)
    ensures
        strip_from_domain_spec(hostname, box_domain) matches Option::Some(l)
            ==> format_hostname_spec(l, box_domain) == hostname,
{
    if strip_from_domain_spec(hostname, box_domain) is Some {
        let label = hostname.subrange(0, hostname.len() - box_domain.len() - 1);
        lemma_format_parse(label);
        assert(format_hostname_spec(
            strip_from_domain_spec(hostname, box_domain)->Some_0,
            box_domain,
        ) =~= hostname);
    }
}

/// Formatting a well-formed, dot-free label under any box domain and then
/// stripping that domain gives the label back.
pub proof fn lemma_format_strip(l: LabelSpec, box_domain: Seq<u8>)
    requires
        wf_label(l),
        dotless_label(l),
    ensures
        strip_from_domain_spec(format_hostname_spec(l, box_domain), box_domain)
            == Option::Some(l),
{
    lemma_keyword_facts();
    let label = format_label_spec(l);
    let hostname = format_hostname_spec(l, box_domain);
    assert(hostname.subrange(hostname.len() - box_domain.len(), hostname.len() as int)
        =~= box_domain);
    assert(hostname[hostname.len() - box_domain.len() - 1] == DOT);
    assert(hostname.subrange(0, hostname.len() - box_domain.len() - 1) =~= label);
    assert forall|i: int| 0 <= i < label.len() implies label[i] != DOT by {
        lemma_label_bytes_not_dot(l, i);
    }
    lemma_parse_format(l);
}

/// The bytes of `"libsql"`, as a vector.
pub fn libsql_bytes() -> (r: Vec<u8>)
    ensures
        r@ == libsql_seq(),
{
    let r: Vec<u8> = vec![108u8, 105u8, 98u8, 115u8, 113u8, 108u8];
    proof {
        assert(r@ =~= libsql_seq());
    }
    r
}

/// The bytes of `"insert"`, as a vector.
pub fn insert_bytes() -> (r: Vec<u8>)
    ensures
        r@ == insert_seq(),
{
    let r: Vec<u8> = vec![105u8, 110u8, 115u8, 101u8, 114u8, 116u8];
    proof {
        assert(r@ =~= insert_seq());
    }
    r
}

/// Finds the first occurrence of `"--"` in `s`.
pub fn find_dd(s: &[u8]) -> (r: Option<usize>)
    ensures
        match r {
            Option::Some(i) => first_dd_from(s@, 0) == Option::Some(i as int),
            Option::None => first_dd_from(s@, 0) is None,
        },
{
    if s.len() < 2 {
        proof {
            if first_dd_from(s@, 0) is Some {
                lemma_first_dd_from(s@, 0);
                assert(false);
            }
        }
        return None;
    }
    let mut i: usize = 0;
    while i < s.len() - 1
        invariant
            2 <= s@.len(),
            i <= s@.len(),
            forall|j: int| 0 <= j < i ==> !has_dd_at(s@, j),
        decreases s.len() - i,
    {
        if s[i] == DASH && s[i + 1] == DASH {
            proof {
                lemma_first_dd_from_finds(s@, 0, i as int);
            }
            return Some(i);
        }
        i += 1;
    }
    proof {
        assert forall|j: int| !has_dd_at(s@, j) by {
            if 0 <= j && j + 1 < s@.len() {
                assert(!has_dd_at(s@, j));
            }
        }
        if first_dd_from(s@, 0) is Some {
            lemma_first_dd_from(s@, 0);
            assert(false);
        }
    }
    None
}

/// Finds the first occurrence of `'-'` in `s`.
pub fn find_dash(s: &[u8]) -> (r: Option<usize>)
    ensures
        match r {
            Option::Some(i) => first_dash_from(s@, 0) == Option::Some(i as int),
            Option::None => first_dash_from(s@, 0) is None,
        },
{
    let mut i: usize = 0;
    while i < s.len()
        invariant
            i <= s@.len(),
            forall|j: int| 0 <= j < i ==> s@[j] != DASH,
        decreases s.len() - i,
    {
        if s[i] == DASH {
            proof {
                lemma_first_dash_from_finds(s@, 0, i as int);
            }
            return Some(i);
        }
        i += 1;
    }
    proof {
        if first_dash_from(s@, 0) is Some {
            lemma_first_dash_from(s@, 0);
            assert(false);
        }
    }
    None
}

/// Parses a bare hostname label. Returns exactly the label of the grammar
/// that formats to the input, or nothing when the input fits no rule.
pub fn parse_label(label: &[u8]) -> (r: Option<Label>)
    ensures
        match r {
            Option::Some(l) => parse_label_spec(label@) == Option::Some(l@),
            Option::None => parse_label_spec(label@) is None,
        },
{
    let libsql = libsql_bytes();
    let insert = insert_bytes();
    match find_dd(label) {
        Option::None => Some(Label::Prod { project: to_vec(label) }),
        Option::Some(i) => {
            proof {
                lemma_first_dd_from(label@, 0);
                assert(i as int + 2 <= label@.len());
            }
            let n = label.len();
            let project = sub_vec(label, 0, i);
            let sub = sub_vec(label, i + 2, n);
            if find_dd(sub.as_slice()).is_some() {
                None
            } else {
                match find_dash(sub.as_slice()) {
                    Option::None => {
                        if bytes_eq_slice(sub.as_slice(), libsql.as_slice()) {
                            Some(Label::ProdDb { project })
                        } else {
                            Some(Label::Deployment { project, deployment: sub })
                        }
                    },
                    Option::Some(j) => {
                        proof {
                            lemma_first_dash_from(sub@, 0);
                        }
                        let deployment = sub_vec(sub.as_slice(), 0, j);
                        let tail = sub_vec(sub.as_slice(), j + 1, sub.len());
                        if find_dash(tail.as_slice()).is_some() {
                            None
                        } else if bytes_eq_slice(tail.as_slice(), insert.as_slice()) {
                            Some(Label::DeploymentInsert { project, deployment })
                        } else if bytes_eq_slice(tail.as_slice(), libsql.as_slice()) {
                            Some(Label::BranchDb { project, deployment })
                        } else {
                            None
                        }
                    },
                }
            }
        },
    }
}

/// Whether `s` holds a `'.'` anywhere.
pub fn contains_dot(s: &[u8]) -> (r: bool)
    ensures
        r <==> !no_dot(s@),
{
    let mut k: usize = 0;
    while k < s.len()
        invariant
            k <= s@.len(),
            forall|j: int| 0 <= j < k ==> s@[j] != DOT,
        decreases s.len() - k,
    {
        if s[k] == DOT {
            return true;
        }
        k += 1;
    }
    false
}

/// Reasons a hostname fails to resolve to a label.
#[derive(Clone, Copy, Debug, PartialEq, Eq, Structural)]
pub enum LabelError {
    /// The hostname does not end in `"." ++ box_domain`.
    NotUnderDomain,
    /// The part before the box domain contains a dot of its own.
    ExtraDots,
    /// The label fits no rule of the grammar.
    InvalidLabel,
}

impl Label {
    /// Formats this label as a full hostname under the given box domain.
    pub fn format_hostname(&self, box_domain: &[u8]) -> (r: Vec<u8>)
        ensures
            r@ == format_hostname_spec(self@, box_domain@),
    {
        let mut out: Vec<u8> = Vec::new();
        let dd: Vec<u8> = vec![DASH, DASH];
        proof {
            assert(dd@ =~= dd_seq());
        }
        match self {
            Label::Prod { project } => {
                push_all(&mut out, project.as_slice());
            },
            Label::ProdDb { project } => {
                push_all(&mut out, project.as_slice());
                push_all(&mut out, dd.as_slice());
                let libsql = libsql_bytes();
                push_all(&mut out, libsql.as_slice());
            },
            Label::Deployment { project, deployment } => {
                push_all(&mut out, project.as_slice());
                push_all(&mut out, dd.as_slice());
                push_all(&mut out, deployment.as_slice());
            },
            Label::DeploymentInsert { project, deployment } => {
                push_all(&mut out, project.as_slice());
                push_all(&mut out, dd.as_slice());
                push_all(&mut out, deployment.as_slice());
                out.push(DASH);
                let insert = insert_bytes();
                push_all(&mut out, insert.as_slice());
            },
            Label::BranchDb { project, deployment } => {
                push_all(&mut out, project.as_slice());
                push_all(&mut out, dd.as_slice());
                push_all(&mut out, deployment.as_slice());
                out.push(DASH);
                let libsql = libsql_bytes();
                push_all(&mut out, libsql.as_slice());
            },
        }
        out.push(DOT);
        push_all(&mut out, box_domain);
        proof {
            assert(out@ =~= format_hostname_spec(self@, box_domain@));
        }
        out
    }

    /// Strips the box domain off a hostname and parses the remaining label.
    /// Succeeds exactly when the hostname is `label "." box_domain` with a
    /// dot-free label of the grammar, and says why it failed otherwise.
    pub fn strip_from_domain(hostname: &[u8], box_domain: &[u8]) -> (r: Result<Label, LabelError>)
        ensures
            match r {
                Ok(l) => strip_from_domain_spec(hostname@, box_domain@) == Option::Some(l@),
                Err(e) => strip_from_domain_spec(hostname@, box_domain@) is None,
            },
    {
        if hostname.len() <= box_domain.len() {
            return Err(LabelError::NotUnderDomain);
        }
        if !crate::bytes::ends_with(hostname, box_domain) {
            return Err(LabelError::NotUnderDomain);
        }
        let cut = hostname.len() - box_domain.len();
        if hostname[cut - 1] != DOT {
            return Err(LabelError::NotUnderDomain);
        }
        let label = sub_vec(hostname, 0, cut - 1);
        if contains_dot(label.as_slice()) {
            return Err(LabelError::ExtraDots);
        }
        proof {
            assert(strip_from_domain_spec(hostname@, box_domain@) == parse_label_spec(label@));
        }
        match parse_label(label.as_slice()) {
            Option::Some(l) => Ok(l),
            Option::None => Err(LabelError::InvalidLabel),
        }
    }

    /// Whether this label enables writes to the branch database.
    pub fn insert_enabled(&self) -> (r: bool)
        ensures
            r <==> self@ is DeploymentInsert,
    {
        match self {
            Label::DeploymentInsert { .. } => true,
            _ => false,
        }
    }
}

/// No byte of a formatted dot-free label is a dot.
proof fn lemma_label_bytes_not_dot(l: LabelSpec, i: int)
    requires
        dotless_label(l),
        0 <= i < format_label_spec(l).len(),
    ensures
        format_label_spec(l)[i] != DOT,
{
    lemma_keyword_facts();
    match l {
        LabelSpec::Prod { project } => {},
        LabelSpec::ProdDb { project } => {},
        LabelSpec::Deployment { project, deployment } => {},
        LabelSpec::DeploymentInsert { project, deployment } => {},
        LabelSpec::BranchDb { project, deployment } => {},
    }
}

} // verus!
