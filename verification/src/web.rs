//! The decisions of the HTTP interface: which route a request takes, and
//! what each route answers. Reading the request and writing the answer are
//! the caller's part.

use vstd::prelude::*;
use vstd::string::StringExecFns;
use crate::instance::{find_in, Instance, InstanceView};
use crate::message_queue::{delivered, referents, MessageQueue};
use crate::numbers::{bounded_number, parse_cursor, parse_id};
use crate::patch::AppliedPatchSet;
use crate::path::{has_prefix, starts_with, str_eq};
use crate::tree::RojoTree;

verus! {

/// The version of the protocol that the answers follow.
pub const PROTOCOL_VERSION: u64 = 2;

/// Where a request goes.
#[derive(Debug, PartialEq, Eq)]
pub enum Route {
    /// The page that says the server is running.
    Home,
    /// A summary of the server.
    Info,
    /// The instances with these ids, with their descendants.
    Read(Vec<u128>),
    /// The messages after this cursor.
    Subscribe(u32),
    /// A patch set from the client.
    Write,
    /// The request is malformed, with this message.
    BadRequest(String),
    /// There is no such route, with this message.
    NotFound(String),
}

/// What a [`Route`] holds.
pub enum RouteView {
    Home,
    Info,
    Read(Seq<u128>),
    Subscribe(u32),
    Write,
    BadRequest(Seq<char>),
    NotFound(Seq<char>),
}

impl View for Route {
    type V = RouteView;

    open spec fn view(&self) -> RouteView {
        match self {
            Route::Home => RouteView::Home,
            Route::Info => RouteView::Info,
            Route::Read(ids) => RouteView::Read(ids@),
            Route::Subscribe(c) => RouteView::Subscribe(*c),
            Route::Write => RouteView::Write,
            Route::BadRequest(m) => RouteView::BadRequest(m@),
            Route::NotFound(m) => RouteView::NotFound(m@),
        }
    }
}

/// Index of the first comma in `s`, or `s.len()` when `s` holds none.
pub open spec fn first_comma(s: Seq<char>) -> int
    decreases s.len(),
{
    if s.len() == 0 {
        0
    } else if s[0] == ',' {
        0
    } else {
        1 + first_comma(s.drop_first())
    }
}

/// The first comma lies within the text or at its end, with no comma
/// before it.
pub proof fn lemma_first_comma(s: Seq<char>)
    ensures
        0 <= first_comma(s) <= s.len(),
        first_comma(s) < s.len() ==> s[first_comma(s)] == ',',
        forall|j: int| 0 <= j < first_comma(s) ==> s[j] != ',',
    decreases s.len(),
{
    if s.len() > 0 && s[0] != ',' {
        let q = s.drop_first();
        lemma_first_comma(q);
        assert forall|j: int| 0 <= j < first_comma(s) implies s[j] != ',' by {
            if j > 0 {
                assert(q[j - 1] == s[j]);
            }
        }
    }
}

/// The ids that `s` lists: hexadecimal numbers with a comma between each
/// two. Nothing where a part is no id.
pub open spec fn id_list_of(s: Seq<char>) -> Option<Seq<u128>>
    decreases s.len(),
{
    let i = first_comma(s);
    if i < 0 || i > s.len() {
        None
    } else {
        match bounded_number(s.subrange(0, i), 16, u128::MAX as int) {
            None => None,
            Some(v) => if i >= s.len() {
                Some(seq![v as u128])
            } else {
                match id_list_of(s.subrange(i + 1, s.len() as int)) {
                    None => None,
                    Some(rest) => Some(seq![v as u128] + rest),
                }
            },
        }
    }
}

/// Reads a list of ids.
pub fn parse_id_list(s: &str) -> (r: Option<Vec<u128>>)
    ensures
        match r {
            Some(ids) => id_list_of(s@) == Some(ids@),
            None => id_list_of(s@).is_none(),
        },
{
    let n: usize = s.unicode_len();
    let mut out: Vec<u128> = Vec::new();
    let mut pos: usize = 0;
    assert(s@.subrange(0, n as int) =~= s@);
    loop
        invariant
            0 <= pos <= n,
            n == s@.len(),
            match id_list_of(s@.subrange(pos as int, n as int)) {
                Some(rest) => id_list_of(s@) == Some(out@ + rest),
                None => id_list_of(s@).is_none(),
            },
        decreases n - pos,
    {
        let ghost tail = s@.subrange(pos as int, n as int);
        let mut end: usize = pos;
        while end < n && s.get_char(end) != ','
            invariant
                pos <= end <= n,
                n == s@.len(),
                forall|j: int| pos <= j < end ==> s@[j] != ',',
            decreases n - end,
        {
            end = end + 1;
        }
        proof {
            lemma_first_comma(tail);
            let i = first_comma(tail);
            if i < end - pos {
                assert(tail[i] == s@[pos + i]);
            }
            if i > end - pos {
                assert(tail[end - pos] == s@[end as int]);
            }
            assert(i == end - pos);
            assert(tail.subrange(0, i) =~= s@.subrange(pos as int, end as int));
        }
        let part = s.substring_char(pos, end);
        let id = match parse_id(part) {
            Some(id) => id,
            None => {
                return None;
            },
        };
        let ghost before = out@;
        out.push(id);
        if end >= n {
            proof {
                assert(before + seq![id] =~= out@);
            }
            return Some(out);
        }
        proof {
            let rest_text = tail.subrange(end - pos + 1, tail.len() as int);
            assert(rest_text =~= s@.subrange(end + 1, n as int));
            match id_list_of(rest_text) {
                Some(rest) => {
                    assert(before + (seq![id] + rest) =~= out@ + rest);
                },
                None => {},
            }
        }
        pos = end + 1;
    }
}

/// Where a request with the method `method` for the path `path` goes.
pub open spec fn route_of(method: Seq<char>, path: Seq<char>) -> RouteView {
    if method == "GET"@ && path == "/"@ {
        RouteView::Home
    } else if method == "GET"@ && path == "/api/rojo"@ {
        RouteView::Info
    } else if method == "POST"@ && path == "/api/write"@ {
        RouteView::Write
    } else if method == "GET"@ && has_prefix(path, "/api/read/"@) {
        match id_list_of(path.subrange("/api/read/"@.len() as int, path.len() as int)) {
            Some(ids) => RouteView::Read(ids),
            None => RouteView::BadRequest("Malformed ID list"@),
        }
    } else if method == "GET"@ && has_prefix(path, "/api/subscribe/"@) {
        match bounded_number(
            path.subrange("/api/subscribe/"@.len() as int, path.len() as int),
            10,
            u32::MAX as int,
        ) {
            Some(c) => RouteView::Subscribe(c as u32),
            None => RouteView::BadRequest("Malformed message cursor"@),
        }
    } else {
        RouteView::NotFound("Route not found: "@ + path)
    }
}

/// Decides where a request goes.
pub fn route(method: &str, path: &str) -> (r: Route)
    ensures
        r@ == route_of(method@, path@),
{
    let get = str_eq(method, "GET");
    if get && str_eq(path, "/") {
        Route::Home
    } else if get && str_eq(path, "/api/rojo") {
        Route::Info
    } else if str_eq(method, "POST") && str_eq(path, "/api/write") {
        Route::Write
    } else if get && starts_with(path, "/api/read/") {
        let rest = path.substring_char("/api/read/".unicode_len(), path.unicode_len());
        match parse_id_list(rest) {
            Some(ids) => Route::Read(ids),
            None => Route::BadRequest("Malformed ID list".to_owned()),
        }
    } else if get && starts_with(path, "/api/subscribe/") {
        let rest = path.substring_char("/api/subscribe/".unicode_len(), path.unicode_len());
        match parse_cursor(rest) {
            Some(c) => Route::Subscribe(c),
            None => Route::BadRequest("Malformed message cursor".to_owned()),
        }
    } else {
        let mut message = String::from_str("Route not found: ");
        message.append(path);
        Route::NotFound(message)
    }
}

/// The instances gathered so far, then those among the first `upto`
/// children of `n` and their descendants whose id is not gathered yet.
pub open spec fn gathered_upto(acc: Seq<InstanceView>, n: InstanceView, upto: int) -> Seq<
    InstanceView,
>
    decreases n, upto,
{
    if 0 < upto <= n.children.len() {
        gathered(gathered_upto(acc, n, upto - 1), n.children[upto - 1])
    } else {
        acc
    }
}

/// Whether an instance with id `id` is among `acc`.
pub open spec fn holds_id(acc: Seq<InstanceView>, id: u128) -> bool {
    exists|i: int| 0 <= i < acc.len() && #[trigger] acc[i].id == id
}

/// The instances gathered so far, then `n` and its descendants, each
/// instance before its children, leaving out every id gathered before.
pub open spec fn gathered(acc: Seq<InstanceView>, n: InstanceView) -> Seq<InstanceView>
    decreases n, n.children.len() + 1,
{
    gathered_upto(
        if holds_id(acc, n.id) {
            acc
        } else {
            acc.push(n)
        },
        n,
        n.children.len() as int,
    )
}

/// The instances that a read of the ids `requested` answers with, over the
/// first `upto` ids: each instance that the tree holds, with its
/// descendants, each id once. Ids that the tree does not hold are left out.
pub open spec fn read_instances(tree: InstanceView, requested: Seq<u128>, upto: int) -> Seq<
    InstanceView,
>
    decreases upto,
{
    if 0 < upto <= requested.len() {
        let before = read_instances(tree, requested, upto - 1);
        match find_in(tree, requested[upto - 1]) {
            Some(x) => gathered(before, x),
            None => before,
        }
    } else {
        Seq::empty()
    }
}

/// The views of the instances that a list of references refers to.
pub open spec fn referred_views(v: Seq<&Instance>) -> Seq<InstanceView> {
    Seq::new(v.len(), |i: int| v[i]@)
}

/// Whether an instance with id `id` is among `out`.
fn already_gathered(out: &Vec<&Instance>, id: u128) -> (r: bool)
    ensures
        r == holds_id(referred_views(out@), id),
{
    let mut i: usize = 0;
    while i < out.len()
        invariant
            0 <= i <= out.len(),
            forall|j: int| 0 <= j < i ==> out@[j].id != id,
        decreases out.len() - i,
    {
        if out[i].id == id {
            assert(referred_views(out@)[i as int].id == id);
            return true;
        }
        i = i + 1;
    }
    assert forall|j: int| 0 <= j < referred_views(out@).len() implies referred_views(out@)[j].id
        != id by {
        assert(out@[j]@.id == out@[j].id);
    }
    false
}

/// Gathers `n` and its descendants, leaving out every id gathered before.
pub fn gather<'a>(n: &'a Instance, out: &mut Vec<&'a Instance>)
    ensures
        referred_views(final(out)@) == gathered(referred_views(old(out)@), n@),
    decreases n,
{
    let ghost start = referred_views(out@);
    if !already_gathered(out, n.id) {
        out.push(n);
        assert(referred_views(out@) =~= start.push(n@));
    }
    let ghost first = referred_views(out@);
    let mut k: usize = 0;
    while k < n.children.len()
        invariant
            0 <= k <= n.children.len(),
            referred_views(out@) == gathered_upto(first, n@, k as int),
        decreases n.children.len() - k,
    {
        assert(n@.children[k as int] == n.children@[k as int]@);
        gather(&n.children[k], out);
        k = k + 1;
    }
}

/// What the server says of itself.
#[derive(Debug, PartialEq, Eq)]
pub struct ServerInfoResponse {
    pub session_id: String,
    pub server_version: String,
    pub protocol_version: u64,
    pub root_instance_id: u128,
    pub expected_place_ids: Option<Vec<u64>>,
}

/// The answer to a read: the cursor at the time, and the instances.
#[derive(Debug, PartialEq, Eq)]
pub struct ReadResponse<'a> {
    pub session_id: String,
    pub message_cursor: u32,
    pub instances: Vec<&'a Instance>,
}

/// The answer to a subscription: the new cursor, and the messages.
#[derive(Debug, PartialEq, Eq)]
pub struct SubscribeResponse<'a> {
    pub session_id: String,
    pub message_cursor: u32,
    pub messages: Vec<&'a AppliedPatchSet>,
}

/// What a request is answered with.
#[derive(Debug, PartialEq, Eq)]
pub enum Response<'a> {
    /// Plain text.
    Text(String),
    Info(ServerInfoResponse),
    Read(ReadResponse<'a>),
    Subscribe(SubscribeResponse<'a>),
    /// Nothing yet: the subscriber waits for the next message after this
    /// cursor.
    Wait(u32),
    /// The body holds a patch set, to be decoded and applied.
    Write,
    /// Status 400, with this message.
    BadRequest(String),
    /// Status 404, with this message.
    NotFound(String),
}

/// The HTTP interface of a session.
#[derive(Debug, PartialEq, Eq)]
pub struct Server {
    pub session_id: String,
    pub server_version: String,
    pub expected_place_ids: Option<Vec<u64>>,
}

/// Copies a list of place ids.
fn copy_place_ids(ids: &Option<Vec<u64>>) -> (r: Option<Vec<u64>>)
    ensures
        match (r, *ids) {
            (Some(a), Some(b)) => a@ == b@,
            (None, None) => true,
            _ => false,
        },
{
    match ids {
        None => None,
        Some(v) => {
            let mut out: Vec<u64> = Vec::new();
            let mut i: usize = 0;
            while i < v.len()
                invariant
                    0 <= i <= v.len(),
                    out@ == v@.subrange(0, i as int),
                decreases v.len() - i,
            {
                out.push(v[i]);
                assert(out@ =~= v@.subrange(0, i + 1));
                i = i + 1;
            }
            assert(out@ =~= v@);
            Some(out)
        },
    }
}

impl Server {
    /// Creates the interface of the session `session_id`.
    pub fn new(session_id: String, server_version: String, expected_place_ids: Option<Vec<u64>>) -> (r:
        Server)
        ensures
            r.session_id == session_id,
            r.server_version == server_version,
            r.expected_place_ids == expected_place_ids,
    {
        Server { session_id, server_version, expected_place_ids }
    }

    /// Answers a request for the summary of the server.
    pub fn info(&self, tree: &RojoTree) -> (r: ServerInfoResponse)
        ensures
            r.session_id@ == self.session_id@,
            r.server_version@ == self.server_version@,
            r.protocol_version == PROTOCOL_VERSION,
            r.root_instance_id == tree@.id,
            match (r.expected_place_ids, self.expected_place_ids) {
                (Some(a), Some(b)) => a@ == b@,
                (None, None) => true,
                _ => false,
            },
    {
        ServerInfoResponse {
            session_id: self.session_id.clone(),
            server_version: self.server_version.clone(),
            protocol_version: PROTOCOL_VERSION,
            root_instance_id: tree.get_root_id(),
            expected_place_ids: copy_place_ids(&self.expected_place_ids),
        }
    }

    /// Answers a read of the ids `requested`: each instance that the tree
    /// holds, with its descendants, each id once. Ids that the tree does
    /// not hold are left out.
    pub fn read<'a>(&self, tree: &'a RojoTree, message_cursor: u32, requested: &Vec<u128>) -> (r:
        ReadResponse<'a>)
        ensures
            r.session_id@ == self.session_id@,
            r.message_cursor == message_cursor,
            referred_views(r.instances@) == read_instances(
                tree@,
                requested@,
                requested@.len() as int,
            ),
    {
        let mut instances: Vec<&'a Instance> = Vec::new();
        let mut i: usize = 0;
        assert(referred_views(instances@) =~= Seq::<InstanceView>::empty());
        while i < requested.len()
            invariant
                0 <= i <= requested.len(),
                referred_views(instances@) == read_instances(tree@, requested@, i as int),
            decreases requested.len() - i,
        {
            match tree.get_instance(requested[i]) {
                Some(x) => {
                    gather(x, &mut instances);
                },
                None => {},
            }
            i = i + 1;
        }
        ReadResponse { session_id: self.session_id.clone(), message_cursor, instances }
    }

    /// Answers a subscriber that holds the cursor `cursor`: with the
    /// messages owed; with the cursor and no message where `cursor` lies
    /// beyond the queue's; with nothing, for the subscriber to wait, where
    /// `cursor` is the queue's.
    pub fn subscribe<'a>(&self, queue: &'a MessageQueue<AppliedPatchSet>, cursor: u32) -> (r: Option<
        SubscribeResponse<'a>,
    >)
        requires
            queue.wf(),
        ensures
            r.is_none() <==> cursor == queue@.len(),
            r matches Some(answer) ==> answer.session_id@ == self.session_id@
                && answer.message_cursor == queue@.len() && referents(answer.messages@)
                == delivered(queue@, cursor as int),
    {
        match queue.subscribe(cursor) {
            None => None,
            Some((message_cursor, messages)) => Some(
                SubscribeResponse {
                    session_id: self.session_id.clone(),
                    message_cursor,
                    messages,
                },
            ),
        }
    }

    /// Answers a request with the method `method` for the path `path`.
    pub fn handle_request<'a>(
        &self,
        method: &str,
        path: &str,
        tree: &'a RojoTree,
        queue: &'a MessageQueue<AppliedPatchSet>,
    ) -> (r: Response<'a>)
        requires
            queue.wf(),
        ensures
            match route_of(method@, path@) {
                RouteView::Home => r matches Response::Text(t) && t@ == "Rojo is up and running!"@,
                RouteView::Info => r matches Response::Info(info) && info.root_instance_id
                    == tree@.id && info.protocol_version == PROTOCOL_VERSION
                    && info.session_id@ == self.session_id@ && info.server_version@
                    == self.server_version@ && (match (
                    info.expected_place_ids,
                    self.expected_place_ids,
                ) {
                    (Some(a), Some(b)) => a@ == b@,
                    (None, None) => true,
                    _ => false,
                }),
                RouteView::Read(ids) => r matches Response::Read(read) && read.session_id@
                    == self.session_id@ && read.message_cursor == queue@.len() && referred_views(
                    read.instances@,
                ) == read_instances(tree@, ids, ids.len() as int),
                RouteView::Subscribe(cursor) => if cursor == queue@.len() {
                    r == Response::<'a>::Wait(cursor)
                } else {
                    r matches Response::Subscribe(answer) && answer.session_id@
                        == self.session_id@ && answer.message_cursor == queue@.len() && referents(
                        answer.messages@,
                    ) == delivered(queue@, cursor as int)
                },
                RouteView::Write => r == Response::<'a>::Write,
                RouteView::BadRequest(m) => r matches Response::BadRequest(t) && t@ == m,
                RouteView::NotFound(m) => r matches Response::NotFound(t) && t@ == m,
            },
    {
        match route(method, path) {
            Route::Home => Response::Text("Rojo is up and running!".to_owned()),
            Route::Info => Response::Info(self.info(tree)),
            Route::Read(ids) => Response::Read(self.read(tree, queue.cursor(), &ids)),
            Route::Subscribe(cursor) => match self.subscribe(queue, cursor) {
                Some(answer) => Response::Subscribe(answer),
                None => Response::Wait(cursor),
            },
            Route::Write => Response::Write,
            Route::BadRequest(m) => Response::BadRequest(m),
            Route::NotFound(m) => Response::NotFound(m),
        }
    }
}

} // verus!
