//! The container runtime adapter's pure side: managed names and images,
//! the listing filter, execution-log parsing, and the mapping of build
//! events to build-log lines.

use vstd::prelude::*;
use vstd::string::StringSliceAdditionalSpecFns;

use crate::bytes::{first_byte_from, push_all, starts_with, sub_vec, to_vec};
use crate::map::views_of;

verus! {

/// ASCII space.
pub const SPACE: u8 = 32;

/// The prefix every managed container and image name carries. Unprefixed
/// containers are never touched.
pub open spec fn container_prefix_seq() -> Seq<u8> {
    ("prezel-").spec_bytes()
}

/// `"prezel-"` as a vector.
pub fn container_prefix() -> (r: Vec<u8>)
    ensures
        r@ == container_prefix_seq(),
{
    to_vec("prezel-".as_bytes())
}

/// A managed image name; the runtime sees it under the managed prefix.
#[derive(Clone, Debug)]
pub struct ImageName {
    pub name: Vec<u8>,
}

impl ImageName {
    pub fn new(name: Vec<u8>) -> (r: ImageName)
        ensures
            r.name@ == name@,
    {
        ImageName { name }
    }

    /// The name the runtime knows the image under.
    pub fn to_docker_name(&self) -> (r: Vec<u8>)
        ensures
            r@ == container_prefix_seq() + self.name@,
    {
        let mut out = container_prefix();
        push_all(&mut out, self.name.as_slice());
        out
    }
}

/// A fresh managed container name: the prefix and twenty-one random
/// characters of the id alphabet.
pub fn generate_managed_container_name() -> (r: Vec<u8>)
    ensures
        r@.len() == container_prefix_seq().len() + 21,
        r@.subrange(0, container_prefix_seq().len() as int) == container_prefix_seq(),
        forall|i: int|
            container_prefix_seq().len() <= i < r@.len() ==> crate::ids::is_id_byte(r@[i]),
{
    let mut out = container_prefix();
    let suffix = crate::ids::random_id_string(21);
    push_all(&mut out, suffix.as_slice());
    proof {
        assert(out@.subrange(0, container_prefix_seq().len() as int) =~= container_prefix_seq());
    }
    out
}

/// A fresh unmanaged container name: twenty-one random characters, no
/// prefix, invisible to the garbage collector.
pub fn generate_unmanaged_container_name() -> (r: Vec<u8>)
    ensures
        r@.len() == 21,
        forall|i: int| 0 <= i < r@.len() ==> crate::ids::is_id_byte(r@[i]),
{
    crate::ids::random_id_string(21)
}

/// The runtime reports names with a leading slash. The listing keeps
/// exactly the managed ones, stripped of that slash.
pub open spec fn managed_names_spec(names: Seq<Seq<u8>>) -> Seq<Seq<u8>>
    decreases names.len(),
{
    if names.len() == 0 {
        Seq::empty()
    } else {
        let d = managed_names_spec(names.drop_last());
        let n = names.last();
        if crate::bytes::has_prefix(n, seq![47u8] + container_prefix_seq()) {
            d.push(n.subrange(1, n.len() as int))
        } else {
            d
        }
    }
}

/// Filters a runtime container listing down to the managed names,
/// stripped of the leading slash.
pub fn filter_managed_names(names: &Vec<Vec<u8>>) -> (r: Vec<Vec<u8>>)
    ensures
        views_of(r@) == managed_names_spec(views_of(names@)),
{
    let mut slash_prefix: Vec<u8> = Vec::new();
    slash_prefix.push(47);
    push_all(&mut slash_prefix, container_prefix().as_slice());
    proof {
        assert(slash_prefix@ =~= seq![47u8] + container_prefix_seq());
        assert(views_of(names@).subrange(0, 0) =~= Seq::<Seq<u8>>::empty());
    }
    let mut out: Vec<Vec<u8>> = Vec::new();
    let mut i: usize = 0;
    while i < names.len()
        invariant
            i <= names@.len(),
            slash_prefix@ == seq![47u8] + container_prefix_seq(),
            views_of(out@) == managed_names_spec(views_of(names@).subrange(0, i as int)),
        decreases names.len() - i,
    {
        proof {
            assert(views_of(names@)[i as int] == names@[i as int]@);
            assert(views_of(names@).subrange(0, i + 1).drop_last() =~= views_of(
                names@,
            ).subrange(0, i as int));
            assert(views_of(names@).subrange(0, i + 1).last() == views_of(names@)[i as int]);
        }
        let ghost prev = views_of(out@);
        if starts_with(names[i].as_slice(), slash_prefix.as_slice()) {
            out.push(sub_vec(names[i].as_slice(), 1, names[i].len()));
            proof {
                assert(views_of(out@) =~= prev.push(
                    names@[i as int]@.subrange(1, names@[i as int]@.len() as int),
                ));
            }
        }
        i += 1;
    }
    proof {
        assert(views_of(names@).subrange(0, views_of(names@).len() as int) =~= views_of(names@));
    }
    out
}

/// What chrono's RFC 3339 parser yields for a timestamp, in epoch
/// milliseconds: a function of the input bytes alone.
pub uninterp spec fn rfc3339_millis_of(s: Seq<u8>) -> Option<i64>;

/// Relies on chrono's `DateTime<Utc>` string parser: the result depends
/// on the input bytes alone; bytes that are not UTF-8 or not a valid
/// timestamp never parse.
#[verifier::external_body]
fn parse_timestamp_millis(ts: &Vec<u8>) -> (r: Option<i64>)
    ensures
        r == rfc3339_millis_of(ts@),
{
    let text = std::str::from_utf8(ts).ok()?;
    let parsed = text.parse::<chrono::DateTime<chrono::Utc>>().ok()?;
    Some(parsed.timestamp_millis())
}

/// One parsed execution-log line: its emit time and its content.
#[derive(Clone, Debug, PartialEq)]
pub struct DockerLog {
    pub time: i64,
    pub message: Vec<u8>,
    pub is_error: bool,
}

/// Assembles one execution-log entry from a raw runtime chunk, tagged
/// with the stream it came from. Unparseable chunks are dropped, as the
/// listing does.
pub fn to_docker_log(message: &[u8], is_error: bool) -> (r: Option<DockerLog>)
    ensures
        match first_byte_from(message@, SPACE, 0) {
            Option::Some(i) => {
                let ts = message@.subrange(0, i);
                let content = message@.subrange(i + 1, message@.len() as int);
                match rfc3339_millis_of(ts) {
                    Some(ms) => r matches Some(l) && l.time == ms && l.message@ == content
                        && l.is_error == is_error,
                    None => r is None,
                }
            },
            Option::None => r is None,
        },
{
    match parse_message(message) {
        Some((time, content)) => Some(DockerLog { time, message: content, is_error }),
        None => None,
    }
}

/// Parses one raw runtime log message: the timestamp up to the first
/// space, then the content. Yields nothing when there is no space or the
/// timestamp does not parse.
pub fn parse_message(message: &[u8]) -> (r: Option<(i64, Vec<u8>)>)
    ensures
        match first_byte_from(message@, SPACE, 0) {
            Option::Some(i) => {
                let ts = message@.subrange(0, i);
                let content = message@.subrange(i + 1, message@.len() as int);
                match rfc3339_millis_of(ts) {
                    Some(ms) => r matches Some(p) && p.0 == ms && p.1@ == content,
                    None => r is None,
                }
            },
            Option::None => r is None,
        },
{
    match crate::bytes::find_byte(message, SPACE) {
        Some(i) => {
            let n = message.len();
            proof {
                crate::bytes::lemma_first_byte_from(message@, SPACE, 0);
                assert(i as int + 1 <= n as int);
            }
            let ts = sub_vec(message, 0, i);
            let content = sub_vec(message, i + 1, n);
            match parse_timestamp_millis(&ts) {
                Some(ms) => Some((ms, content)),
                None => None,
            }
        },
        None => None,
    }
}

/// One completed vertex of a build event stream.
#[derive(Clone, Debug)]
pub struct BuildVertex {
    pub name: Vec<u8>,
    pub completed: bool,
    pub cached: bool,
    pub error: Vec<u8>,
}

impl View for BuildVertex {
    type V = (Seq<u8>, bool, bool, Seq<u8>);

    open spec fn view(&self) -> (Seq<u8>, bool, bool, Seq<u8>) {
        (self.name@, self.completed, self.cached, self.error@)
    }
}

/// One line bound for the deployment's build log.
#[derive(Clone, Debug, PartialEq)]
pub struct BuildLogLine {
    pub content: Vec<u8>,
    pub is_error: bool,
}

impl View for BuildLogLine {
    type V = (Seq<u8>, bool);

    open spec fn view(&self) -> (Seq<u8>, bool) {
        (self.content@, self.is_error)
    }
}

/// The log lines one vertex contributes: its name when it completed
/// (prefixed `"CACHED "` when served from cache), and its error text,
/// marked as an error, when it carries one.
pub open spec fn vertex_lines(v: (Seq<u8>, bool, bool, Seq<u8>)) -> Seq<(Seq<u8>, bool)> {
    let completion: Seq<(Seq<u8>, bool)> = if v.1 {
        if v.2 {
            seq![(("CACHED ").spec_bytes() + v.0, false)]
        } else {
            seq![(v.0, false)]
        }
    } else {
        Seq::empty()
    };
    let errors: Seq<(Seq<u8>, bool)> = if v.3.len() > 0 {
        seq![(v.3, true)]
    } else {
        Seq::empty()
    };
    completion + errors
}

/// The log lines of a whole event chunk: every raw log line first, then
/// each vertex's lines, in stream order.
pub open spec fn event_lines(logs: Seq<Seq<u8>>, vertexes: Seq<(Seq<u8>, bool, bool, Seq<u8>)>)
    -> Seq<(Seq<u8>, bool)>
    decreases vertexes.len(),
{
    if vertexes.len() == 0 {
        logs.map_values(|l: Seq<u8>| (l, false))
    } else {
        event_lines(logs, vertexes.drop_last()) + vertex_lines(vertexes.last())
    }
}

/// Maps one build event chunk of the runtime to the lines appended to
/// the deployment's build log, in emit order.
pub fn build_event_lines(logs: &Vec<Vec<u8>>, vertexes: &Vec<BuildVertex>) -> (r: Vec<
    BuildLogLine,
>)
    ensures
        r@.map_values(|l: BuildLogLine| l@) == event_lines(
            views_of(logs@),
            vertexes@.map_values(|v: BuildVertex| v@),
        ),
{
    let ghost vv = vertexes@.map_values(|v: BuildVertex| v@);
    let mut out: Vec<BuildLogLine> = Vec::new();
    let mut i: usize = 0;
    while i < logs.len()
        invariant
            i <= logs@.len(),
            out@.map_values(|l: BuildLogLine| l@) =~= views_of(logs@).subrange(
                0,
                i as int,
            ).map_values(|l: Seq<u8>| (l, false)),
        decreases logs.len() - i,
    {
        proof {
            assert(views_of(logs@)[i as int] == logs@[i as int]@);
        }
        let ghost prev = out@.map_values(|l: BuildLogLine| l@);
        out.push(BuildLogLine { content: to_vec(logs[i].as_slice()), is_error: false });
        proof {
            assert(out@.map_values(|l: BuildLogLine| l@) =~= prev.push((logs@[i as int]@, false)));
            assert(prev.push((logs@[i as int]@, false)) =~= views_of(logs@).subrange(
                0,
                i + 1,
            ).map_values(|l: Seq<u8>| (l, false)));
        }
        i += 1;
    }
    proof {
        assert(views_of(logs@).subrange(0, views_of(logs@).len() as int) =~= views_of(logs@));
        assert(vv.subrange(0, 0) =~= Seq::<(Seq<u8>, bool, bool, Seq<u8>)>::empty());
        assert(event_lines(views_of(logs@), vv.subrange(0, 0)) == views_of(logs@).map_values(
            |l: Seq<u8>| (l, false),
        ));
    }
    let mut j: usize = 0;
    while j < vertexes.len()
        invariant
            j <= vertexes@.len(),
            vv == vertexes@.map_values(|v: BuildVertex| v@),
            out@.map_values(|l: BuildLogLine| l@) == event_lines(
                views_of(logs@),
                vv.subrange(0, j as int),
            ),
        decreases vertexes.len() - j,
    {
        proof {
            assert(vv[j as int] == vertexes@[j as int]@);
            assert(vv.subrange(0, j + 1).drop_last() =~= vv.subrange(0, j as int));
            assert(vv.subrange(0, j + 1).last() == vv[j as int]);
        }
        let ghost prev = out@.map_values(|l: BuildLogLine| l@);
        if vertexes[j].completed {
            if vertexes[j].cached {
                let mut content = to_vec("CACHED ".as_bytes());
                push_all(&mut content, vertexes[j].name.as_slice());
                out.push(BuildLogLine { content, is_error: false });
            } else {
                out.push(
                    BuildLogLine { content: to_vec(vertexes[j].name.as_slice()), is_error: false },
                );
            }
        }
        let ghost mid = out@.map_values(|l: BuildLogLine| l@);
        if vertexes[j].error.len() > 0 {
            out.push(
                BuildLogLine { content: to_vec(vertexes[j].error.as_slice()), is_error: true },
            );
        }
        proof {
            assert(out@.map_values(|l: BuildLogLine| l@) =~= prev + vertex_lines(vv[j as int]));
        }
        j += 1;
    }
    proof {
        assert(vv.subrange(0, vv.len() as int) =~= vv);
    }
    out
}

} // verus!
