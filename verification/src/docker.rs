//! Docker: compose files and Dockerfiles in a project, the containers that
//! `docker ps` lists for it, and the banner's docker detail.

use vstd::prelude::*;
use crate::banner::{paint, reset_code};
use crate::parse::{lines, lines_text};
use crate::text::{contains, dec_digits, has_infix, owned, push_str, push_u64, slice_chars, str_eq, string_from_chars, to_chars, views};

verus! {

/// A running container: its name and its `docker ps` status.
#[derive(Debug, Clone)]
pub struct ContainerInfo {
    pub name: String,
    pub status: String,
}

/// Docker files of a project and its containers.
#[derive(Debug, Clone)]
pub struct DockerInfo {
    pub has_compose: bool,
    pub has_dockerfile: bool,
    pub containers: Vec<ContainerInfo>,
}

/// File names that mark a compose project.
pub open spec fn compose_names() -> Seq<Seq<char>> {
    seq!["docker-compose.yml"@, "docker-compose.yaml"@, "compose.yml"@, "compose.yaml"@]
}

/// File names that mark a Dockerfile.
pub open spec fn dockerfile_names() -> Seq<Seq<char>> {
    seq!["Dockerfile"@, "Dockerfile.dev"@, "Dockerfile.prod"@]
}

/// Some name of `names` is among `existing`.
pub open spec fn any_present(existing: Seq<String>, names: Seq<Seq<char>>) -> bool {
    exists|i: int| 0 <= i < names.len() && views(existing).contains(#[trigger] names[i])
}

/// `s` cut at the first `c` (`str::split_once` on a char).
pub open spec fn split_once_char(s: Seq<char>, c: char) -> Option<(Seq<char>, Seq<char>)> {
    if exists|i: int| 0 <= i < s.len() && s[i] == c {
        let i = choose|i: int| 0 <= i < s.len() && s[i] == c && forall|j: int| 0 <= j < i ==> s[j] != c;
        Some((s.subrange(0, i), s.subrange(i + 1, s.len() as int)))
    } else {
        None
    }
}

/// The `name:status` pairs of the lines that hold a colon.
pub open spec fn containers_of(ls: Seq<Seq<char>>) -> Seq<(Seq<char>, Seq<char>)>
    decreases ls.len(),
{
    if ls.len() == 0 {
        Seq::empty()
    } else {
        let prev = containers_of(ls.drop_last());
        match split_once_char(ls.last(), ':') {
            Some(p) => prev.push(p),
            None => prev,
        }
    }
}

/// The containers as name and status text.
pub open spec fn containers_view(v: Seq<ContainerInfo>) -> Seq<(Seq<char>, Seq<char>)> {
    v.map_values(|c: ContainerInfo| (c.name@, c.status@))
}

/// The `docker ps` filter for the compose project named after the directory.
pub fn compose_filter(dir_name: &str) -> (r: String)
    ensures
        r@ == "label=com.docker.compose.project="@ + dir_name@,
{
    let mut s = owned("label=com.docker.compose.project=");
    push_str(&mut s, dir_name);
    s
}

/// The `docker ps` filter for containers that mount the directory.
pub fn volume_filter(abs_path: &str) -> (r: String)
    ensures
        r@ == "volume="@ + abs_path@,
{
    let mut s = owned("volume=");
    push_str(&mut s, abs_path);
    s
}

fn any_name(existing: &[String], names: &[&str]) -> (r: bool)
    ensures
        r == exists|i: int| 0 <= i < names@.len() && views(existing@).contains(#[trigger] names@[i]@),
{
    let ghost ev = views(existing@);
    let mut i: usize = 0;
    while i < names.len()
        invariant
            i <= names@.len(),
            ev == views(existing@),
            forall|k: int| 0 <= k < i ==> !ev.contains(#[trigger] names@[k]@),
        decreases names@.len() - i,
    {
        let mut j: usize = 0;
        while j < existing.len()
            invariant
                i < names@.len(),
                j <= existing@.len(),
                ev == views(existing@),
                forall|k: int| 0 <= k < j ==> ev[k] != names@[i as int]@,
            decreases existing@.len() - j,
        {
            if str_eq(existing[j].as_str(), names[i]) {
                assert(ev[j as int] == names@[i as int]@);
                assert(ev.contains(names@[i as int]@));
                return true;
            }
            j = j + 1;
        }
        assert(!ev.contains(names@[i as int]@)) by {
            if ev.contains(names@[i as int]@) {
                let k = choose|k: int| 0 <= k < ev.len() && ev[k] == names@[i as int]@;
            }
        }
        i = i + 1;
    }
    false
}

/// Whether the directory has a compose file and whether it has a Dockerfile,
/// given the names of the candidate files that exist in it.
pub fn docker_markers(existing: &[String]) -> (r: (bool, bool))
    ensures
        r.0 == any_present(existing@, compose_names()),
        r.1 == any_present(existing@, dockerfile_names()),
{
    let compose = ["docker-compose.yml", "docker-compose.yaml", "compose.yml", "compose.yaml"];
    let docker = ["Dockerfile", "Dockerfile.dev", "Dockerfile.prod"];
    assert forall|i: int| 0 <= i < 4 implies #[trigger] compose@[i]@ == compose_names()[i] by {}
    assert forall|i: int| 0 <= i < 3 implies #[trigger] docker@[i]@ == dockerfile_names()[i] by {}
    let a = any_name(existing, &compose);
    let b = any_name(existing, &docker);
    proof {
        if a {
            let i = choose|i: int| 0 <= i < compose@.len() && views(existing@).contains(#[trigger] compose@[i]@);
            assert(views(existing@).contains(compose_names()[i]));
        }
        if any_present(existing@, compose_names()) {
            let i = choose|i: int| 0 <= i < compose_names().len() && views(existing@).contains(#[trigger] compose_names()[i]);
            assert(views(existing@).contains(compose@[i]@));
        }
        if b {
            let i = choose|i: int| 0 <= i < docker@.len() && views(existing@).contains(#[trigger] docker@[i]@);
            assert(views(existing@).contains(dockerfile_names()[i]));
        }
        if any_present(existing@, dockerfile_names()) {
            let i = choose|i: int| 0 <= i < dockerfile_names().len() && views(existing@).contains(#[trigger] dockerfile_names()[i]);
            assert(views(existing@).contains(docker@[i]@));
        }
    }
    (a, b)
}

fn split_line(line: &[char]) -> (r: Option<ContainerInfo>)
    ensures
        match r {
            Some(c) => split_once_char(line@, ':') == Some((c.name@, c.status@)),
            None => split_once_char(line@, ':') is None,
        },
{
    let mut i: usize = 0;
    while i < line.len()
        invariant
            i <= line@.len(),
            forall|j: int| 0 <= j < i ==> line@[j] != ':',
        decreases line@.len() - i,
    {
        if line[i] == ':' {
            let name = string_from_chars(slice_chars(line, 0, i).as_slice());
            let status = string_from_chars(slice_chars(line, i + 1, line.len()).as_slice());
            proof {
                let s = line@;
                let w = choose|w: int| 0 <= w < s.len() && s[w] == ':' && forall|j: int| 0 <= j < w ==> s[j] != ':';
                assert(w == i) by {
                    if w < i {
                        assert(s[w] != ':');
                    } else if w > i {
                        assert(s[i as int] != ':');
                    }
                }
            }
            return Some(ContainerInfo { name, status });
        }
        i = i + 1;
    }
    None
}

/// The containers that `docker ps --format {{.Names}}:{{.Status}}` lists:
/// each line cut at its first colon into name and status; lines without a
/// colon are left out.
pub fn parse_containers(output: &str) -> (r: Vec<ContainerInfo>)
    ensures
        containers_view(r@) == containers_of(lines_text(output@)),
{
    let cs = to_chars(output);
    let ls = lines(cs.as_slice());
    let ghost lt = lines_text(output@);
    let mut r: Vec<ContainerInfo> = Vec::new();
    let mut i: usize = 0;
    while i < ls.len()
        invariant
            i <= ls@.len(),
            ls@.len() == lt.len(),
            forall|j: int| 0 <= j < ls@.len() ==> #[trigger] ls@[j]@ == lt[j],
            containers_view(r@) == containers_of(lt.take(i as int)),
        decreases ls@.len() - i,
    {
        assert(lt.take(i + 1).drop_last() == lt.take(i as int));
        assert(lt.take(i + 1).last() == lt[i as int]);
        match split_line(ls[i].as_slice()) {
            Some(c) => {
                r.push(c);
                assert(containers_view(r@) =~= containers_view(r@.drop_last()).push((c.name@, c.status@)));
            },
            None => {},
        }
        i = i + 1;
    }
    assert(lt.take(lt.len() as int) == lt);
    r
}

/// What the containers of a detection are: those of the compose-project
/// query, or, when it lists none, those of the volume query.
pub open spec fn detected_containers(compose_ps: Seq<char>, volume_ps: Option<Seq<char>>) -> Option<Seq<(Seq<char>, Seq<char>)>> {
    let first = containers_of(lines_text(compose_ps));
    if first.len() > 0 {
        Some(first)
    } else {
        match volume_ps {
            Some(v) => Some(containers_of(lines_text(v))),
            None => None,
        }
    }
}

/// Docker info for a project, given the names of the candidate docker files
/// that exist in it and the outputs of the two `docker ps` queries (`None`
/// where the command failed). Without a compose file or Dockerfile no query
/// is consulted and there are no containers. Otherwise the compose-project
/// query decides, and the volume query is consulted only when that lists no
/// container; a failed query that is consulted fails the detection (`None`).
pub fn detect_docker(existing: &[String], compose_ps: Option<&str>, volume_ps: Option<&str>) -> (r: Option<DockerInfo>)
    ensures
        ({
            let hc = any_present(existing@, compose_names());
            let hd = any_present(existing@, dockerfile_names());
            if !hc && !hd {
                r matches Some(d) && !d.has_compose && !d.has_dockerfile && d.containers@.len() == 0
            } else {
                match compose_ps {
                    None => r is None,
                    Some(c) => match detected_containers(c@, match volume_ps {
                        Some(v) => Some(v@),
                        None => None,
                    }) {
                        None => r is None,
                        Some(cs) => r matches Some(d) && d.has_compose == hc && d.has_dockerfile == hd
                            && containers_view(d.containers@) == cs,
                    },
                }
            }
        }),
{
    let (has_compose, has_dockerfile) = docker_markers(existing);
    if !has_compose && !has_dockerfile {
        return Some(DockerInfo { has_compose, has_dockerfile, containers: Vec::new() });
    }
    let c = match compose_ps {
        None => {
            return None;
        },
        Some(c) => c,
    };
    let first = parse_containers(c);
    if first.len() > 0 {
        return Some(DockerInfo { has_compose, has_dockerfile, containers: first });
    }
    match volume_ps {
        None => None,
        Some(v) => Some(DockerInfo { has_compose, has_dockerfile, containers: parse_containers(v) }),
    }
}

/// How many of the containers have a status that says "Up".
pub open spec fn running_of(cs: Seq<ContainerInfo>) -> nat
    decreases cs.len(),
{
    if cs.len() == 0 {
        0
    } else {
        running_of(cs.drop_last()) + if has_infix(cs.last().status@, "Up"@) { 1nat } else { 0nat }
    }
}

proof fn lemma_running_le(cs: Seq<ContainerInfo>)
    ensures
        running_of(cs) <= cs.len(),
    decreases cs.len(),
{
    if cs.len() > 0 {
        lemma_running_le(cs.drop_last());
    }
}

/// The number of running containers.
pub fn running_count(containers: &[ContainerInfo]) -> (r: usize)
    ensures
        r == running_of(containers@),
{
    let up = to_chars("Up");
    let mut n: usize = 0;
    let mut i: usize = 0;
    while i < containers.len()
        invariant
            i <= containers@.len(),
            up@ == "Up"@,
            n == running_of(containers@.take(i as int)),
        decreases containers@.len() - i,
    {
        assert(containers@.take(i + 1).drop_last() == containers@.take(i as int));
        proof {
            lemma_running_le(containers@.take(i as int));
        }
        let st = to_chars(containers[i].status.as_str());
        if contains(st.as_slice(), up.as_slice()) {
            n = n + 1;
        }
        i = i + 1;
    }
    assert(containers@.take(containers@.len() as int) == containers@);
    n
}

/// The banner's docker detail: the container count in cyan ("N up" when some
/// run), a dim "docker" for a project with docker files but no containers,
/// nothing otherwise.
pub open spec fn docker_detail_text(d: DockerInfo, colors: bool) -> Option<Seq<char>> {
    let total = d.containers@.len();
    let running = running_of(d.containers@);
    if total > 0 {
        Some(paint("\x1b[36m"@, colors) + "🐳 "@
            + (if running > 0 { dec_digits(running) + " up"@ } else { dec_digits(total) })
            + " container(s)"@ + paint(reset_code(), colors))
    } else if d.has_compose || d.has_dockerfile {
        Some(paint("\x1b[2m"@, colors) + "🐳 docker"@ + paint(reset_code(), colors))
    } else {
        None
    }
}

/// Builds the banner's docker detail.
pub fn docker_detail(d: &DockerInfo, colors: bool) -> (r: Option<String>)
    ensures
        match r {
            Some(s) => docker_detail_text(*d, colors) == Some(s@),
            None => docker_detail_text(*d, colors) is None,
        },
{
    let total = d.containers.len();
    if total > 0 {
        let running = running_count(d.containers.as_slice());
        let mut s = String::new();
        push_str(&mut s, crate::banner::color("\x1b[36m", colors));
        push_str(&mut s, "🐳 ");
        if running > 0 {
            push_u64(&mut s, running as u64);
            push_str(&mut s, " up");
        } else {
            push_u64(&mut s, total as u64);
        }
        push_str(&mut s, " container(s)");
        push_str(&mut s, crate::banner::color("\x1b[0m", colors));
        Some(s)
    } else if d.has_compose || d.has_dockerfile {
        let mut s = String::new();
        push_str(&mut s, crate::banner::color("\x1b[2m", colors));
        push_str(&mut s, "🐳 docker");
        push_str(&mut s, crate::banner::color("\x1b[0m", colors));
        Some(s)
    } else {
        None
    }
}

} // verus!
