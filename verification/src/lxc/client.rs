//! Where a daemon listens, and what its replies hold.
use crate::number::{decimal, write_u64};
use crate::output::Error;
use crate::text::{contains_char, from_utf8_lossy, lossy};
use crate::value::{opt, Json, JsonView};
use vstd::prelude::*;
use vstd::string::*;

verus! {

/// A daemon.
#[derive(Debug)]
pub struct LxcClient {
    socket: String,
}

/// A reply to a GET request.
#[derive(Debug)]
pub struct LxcReply {
    pub code: u16,
    /// The status as it is shown, such as `500 Internal Server Error`.
    pub status: String,
    pub body: Vec<u8>,
    /// The body as JSON, where it is JSON.
    pub envelope: Option<Json>,
}

/// The paths where a daemon may listen, in the order in which they are tried.
pub open spec fn candidates() -> Seq<Seq<char>> {
    seq!["/var/snap/lxd/common/lxd/unix.socket"@, "/var/lib/lxd/unix.socket"@, "/var/lib/incus/unix.sock"@]
}

/// The paths where a daemon may listen, in the order in which they are tried.
pub fn socket_candidates() -> (r: Vec<&'static str>)
    ensures
        r.deep_view() == candidates(),
{
    let r = vec!["/var/snap/lxd/common/lxd/unix.socket", "/var/lib/lxd/unix.socket", "/var/lib/incus/unix.sock"];
    assert(r.deep_view() =~= candidates());
    r
}

/// The first of the candidates that is there.
pub open spec fn first_present(present: Seq<bool>, i: int) -> Option<Seq<char>>
    decreases candidates().len() - i,
{
    if i >= candidates().len() {
        None
    } else if present[i] {
        Some(candidates()[i])
    } else {
        first_present(present, i + 1)
    }
}

/// Where the daemon listens: where the environment says, else the first candidate that is
/// there.
pub open spec fn socket_at(env: Option<Seq<char>>, present: Seq<bool>) -> Option<Seq<char>> {
    match env {
        Some(path) => Some(path),
        None => first_present(present, 0),
    }
}

/// Where the daemon listens, from the value of `LXD_SOCKET` and from which of the candidates
/// are there.
pub fn discover_socket(env: &Option<String>, present: &Vec<bool>) -> (r: Result<String, Error>)
    requires
        present@.len() == candidates().len(),
    ensures
        match r {
            Ok(path) => socket_at(opt(*env), present@) == Some(path@),
            Err(e) => socket_at(opt(*env), present@) is None && e.message@
                == "no LXD/Incus unix socket found. Set LXD_SOCKET or install LXD/Incus.\nSearched: /var/snap/lxd/common/lxd/unix.socket, /var/lib/lxd/unix.socket, /var/lib/incus/unix.sock"@,
        },
{
    if let Some(path) = env {
        return Ok(path.clone());
    }
    let all = socket_candidates();
    assert(all.deep_view().len() == all@.len());
    let mut i: usize = 0;
    while i < all.len()
        invariant
            all.deep_view() == candidates(),
            all@.len() == candidates().len(),
            present@.len() == candidates().len(),
            i <= all@.len(),
            env is None,
            first_present(present@, 0) == first_present(present@, i as int),
        decreases all@.len() - i,
    {
        assert(all@[i as int]@ == candidates()[i as int]);
        if present[i] {
            return Ok(all[i].to_owned());
        }
        i += 1;
    }
    Err(
        Error {
            message:
                "no LXD/Incus unix socket found. Set LXD_SOCKET or install LXD/Incus.\nSearched: /var/snap/lxd/common/lxd/unix.socket, /var/lib/lxd/unix.socket, /var/lib/incus/unix.sock".to_owned(),
        },
    )
}

/// The payload of a reply to the request for `path`; none where nothing is there. Else what is
/// wrong with it.
pub open spec fn payload(path: Seq<char>, reply: LxcReply) -> Result<Option<JsonView>, Seq<char>> {
    if reply.code == 404 {
        Ok(None)
    } else if !(200 <= reply.code < 300) {
        Err("LXD returned HTTP "@ + reply.status@ + " for GET "@ + path + ": "@ + lossy(reply.body@))
    } else {
        match reply.envelope {
            None => Err("parsing JSON response for "@ + path),
            Some(envelope) => match envelope@.get("metadata"@) {
                Some(v) => Ok(Some(v)),
                None => Err("LXD response for "@ + path + " has no `metadata` field"@),
            },
        }
    }
}

/// A path with the depth to which the daemon is to fill in what it refers to.
pub open spec fn with_recursion(path: Seq<char>, recursion: int) -> Seq<char> {
    path + (if path.contains('?') {
        "&"@
    } else {
        "?"@
    }) + "recursion="@ + decimal(recursion as nat)
}

/// A path with the depth to which the daemon is to fill in what it refers to; a query that it
/// already has is kept.
pub fn recursive_path(path: &str, recursion: u8) -> (r: String)
    ensures
        r@ == with_recursion(path@, recursion as int),
{
    let mut out = path.to_owned();
    if contains_char(path, '?') {
        out.append("&");
    } else {
        out.append("?");
    }
    out.append("recursion=");
    out.append(write_u64(recursion as u64).as_str());
    out
}

impl LxcClient {
    /// Where the daemon listens.
    pub closed spec fn address(&self) -> Seq<char> {
        self.socket@
    }

    /// The daemon that the environment or the candidates lead to.
    pub fn connect(env: &Option<String>, present: &Vec<bool>) -> (r: Result<LxcClient, Error>)
        requires
            present@.len() == candidates().len(),
        ensures
            match r {
                Ok(client) => socket_at(opt(*env), present@) == Some(client.address()),
                Err(e) => socket_at(opt(*env), present@) is None && e.message@
                    == "no LXD/Incus unix socket found. Set LXD_SOCKET or install LXD/Incus.\nSearched: /var/snap/lxd/common/lxd/unix.socket, /var/lib/lxd/unix.socket, /var/lib/incus/unix.sock"@,
            },
    {
        match discover_socket(env, present) {
            Ok(socket) => Ok(LxcClient { socket }),
            Err(e) => Err(e),
        }
    }

    /// Where the daemon listens.
    pub fn socket<'a>(&'a self) -> (r: &'a str)
        ensures
            r@ == self.address(),
    {
        self.socket.as_str()
    }

    /// The payload of the daemon's reply to the request for `path`; none where nothing is there.
    pub fn get_json(&self, path: &str, reply: &LxcReply) -> (r: Result<Option<Json>, Error>)
        ensures
            match r {
                Ok(found) => payload(path@, *reply) == Ok::<Option<JsonView>, Seq<char>>(opt(found)),
                Err(e) => payload(path@, *reply) == Err::<Option<JsonView>, Seq<char>>(e.message@),
            },
    {
        if reply.code == 404 {
            return Ok(None);
        }
        let mut message = String::new();
        if reply.code < 200 || reply.code >= 300 {
            message = "LXD returned HTTP ".to_owned();
            message.append(reply.status.as_str());
            message.append(" for GET ");
            message.append(path);
            message.append(": ");
            message.append(from_utf8_lossy(reply.body.as_slice()).as_str());
            return Err(Error { message });
        }
        match &reply.envelope {
            None => {
                message = "parsing JSON response for ".to_owned();
                message.append(path);
                Err(Error { message })
            },
            Some(envelope) => match envelope.get("metadata") {
                Some(v) => Ok(Some(v.copy())),
                None => {
                    message = "LXD response for ".to_owned();
                    message.append(path);
                    message.append(" has no `metadata` field");
                    Err(Error { message })
                },
            },
        }
    }

    /// The payload of the daemon's reply to the request for `path` with a recursion depth.
    pub fn get_json_recursive(&self, path: &str, recursion: u8, reply: &LxcReply) -> (r: Result<Option<Json>, Error>)
        ensures
            match r {
                Ok(found) => payload(with_recursion(path@, recursion as int), *reply) == Ok::<
                    Option<JsonView>,
                    Seq<char>,
                >(opt(found)),
                Err(e) => payload(with_recursion(path@, recursion as int), *reply) == Err::<
                    Option<JsonView>,
                    Seq<char>,
                >(e.message@),
            },
    {
        let full = recursive_path(path, recursion);
        self.get_json(full.as_str(), reply)
    }
}

/// A path in a project, where one is given.
pub open spec fn in_project(path: Seq<char>, project: Option<Seq<char>>) -> Seq<char> {
    match project {
        Some(p) => path + "?project="@ + p,
        None => path,
    }
}

/// A path in a project, where one is given.
pub fn project_path(path: &str, project: &Option<String>) -> (r: String)
    ensures
        r@ == in_project(path@, opt(*project)),
{
    let mut out = path.to_owned();
    if let Some(p) = project {
        out.append("?project=");
        out.append(p.as_str());
    }
    out
}

/// The socket that the environment names is taken as it is; else the first of the usual places where
/// there is one, and none where there is none.
pub proof fn environment_goes_before_the_places(env: Option<Seq<char>>, present: Seq<bool>, path: Seq<char>)
    requires
        present.len() == 3,
    ensures
        env == Some(path) ==> socket_at(env, present) == Some(path),
        env is None ==> socket_at(env, present) == if present[0] {
            Some("/var/snap/lxd/common/lxd/unix.socket"@)
        } else if present[1] {
            Some("/var/lib/lxd/unix.socket"@)
        } else if present[2] {
            Some("/var/lib/incus/unix.sock"@)
        } else {
            None
        },
{
    reveal_with_fuel(first_present, 5);
}

/// A reply of success gives its metadata; one that nothing was found for gives nothing; any other is
/// an error, and so is one without metadata.
pub proof fn replies_give_their_metadata(path: Seq<char>, reply: LxcReply, envelope: Json, v: JsonView)
    ensures
        reply.code == 404 ==> payload(path, reply) == Ok::<Option<JsonView>, Seq<char>>(None),
        200 <= reply.code <= 299 && reply.envelope == Some(envelope) && envelope@.get("metadata"@) == Some(v) ==> payload(
            path,
            reply,
        ) == Ok::<Option<JsonView>, Seq<char>>(Some(v)),
        200 <= reply.code <= 299 && reply.envelope == Some(envelope) && envelope@.get("metadata"@) is None ==> payload(
            path,
            reply,
        ) is Err,
        200 <= reply.code <= 299 && reply.envelope is None ==> payload(path, reply) is Err,
        reply.code != 404 && (reply.code < 200 || reply.code >= 300) ==> payload(path, reply) is Err,
{
}

/// The depth is added behind a question mark, or behind an ampersand where the path has a query.
pub proof fn depth_is_added_to_the_query(path: Seq<char>, project: Seq<char>, n: nat)
    ensures
        !path.contains('?') ==> with_recursion(path, n as int) == path + "?recursion="@ + decimal(n),
        path.contains('?') ==> with_recursion(path, n as int) == path + "&recursion="@ + decimal(n),
        in_project(path, Some(project)) == path + "?project="@ + project,
        in_project(path, Some(project)).contains('?'),
        in_project(path, None) == path,
{
    reveal_strlit("?");
    reveal_strlit("&");
    reveal_strlit("recursion=");
    reveal_strlit("?recursion=");
    reveal_strlit("&recursion=");
    reveal_strlit("?project=");
    assert("?"@ + "recursion="@ =~= "?recursion="@);
    assert("&"@ + "recursion="@ =~= "&recursion="@);
    assert(path + "?"@ + "recursion="@ =~= path + "?recursion="@);
    assert(path + "&"@ + "recursion="@ =~= path + "&recursion="@);
    assert(in_project(path, Some(project))[path.len() as int] == '?');
}

} // verus!
