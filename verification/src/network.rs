//! Network state of the daemon process, read from `lsof -nP -a -i -p <pid>`
//! output.
//!
//! The agent uploads to its master over a websocket; an ESTABLISHED TCP
//! connection from the daemon is the practical "uplink is connected" signal.

use vstd::prelude::*;
use crate::text::{
    chars_of, find_from, lines, matches_at, push_range, seq_eq, split_lines, split_ws, string_of,
    words,
};

verus! {

/// One internet socket of the daemon.
#[derive(Debug)]
pub struct Connection {
    /// TCP / UDP
    pub protocol: String,
    pub local: String,
    /// None for listening/unbound sockets
    pub remote: Option<String>,
    /// ESTABLISHED, LISTEN, ... (TCP only)
    pub state: Option<String>,
}

/// The contents of a `Connection`.
pub struct ConnView {
    pub protocol: Seq<char>,
    pub local: Seq<char>,
    pub remote: Option<Seq<char>>,
    pub state: Option<Seq<char>>,
}

/// The view of an optional string.
pub open spec fn opt_str(o: Option<String>) -> Option<Seq<char>> {
    match o {
        Some(s) => Some(s@),
        None => None,
    }
}

impl View for Connection {
    type V = ConnView;

    open spec fn view(&self) -> ConnView {
        ConnView {
            protocol: self.protocol@,
            local: self.local@,
            remote: opt_str(self.remote),
            state: opt_str(self.state),
        }
    }
}

/// A socket in the ESTABLISHED state.
pub open spec fn established_spec(c: ConnView) -> bool {
    c.state == Some("ESTABLISHED"@)
}

impl Connection {
    /// Whether the socket is ESTABLISHED.
    pub fn is_established(&self) -> (r: bool)
        ensures
            r == established_spec(self@),
    {
        match &self.state {
            Some(s) => seq_eq(&chars_of(s.as_str()), &chars_of("ESTABLISHED")),
            None => false,
        }
    }
}

// ---------------------------------------------------------------------------
// lsof output

/// A protocol column value.
pub open spec fn is_proto(t: Seq<char>) -> bool {
    t == "TCP"@ || t == "UDP"@
}

/// Index of the first protocol column among the tokens, or -1.
pub open spec fn proto_index(ts: Seq<Seq<char>>) -> int
    decreases ts.len(),
{
    if ts.len() == 0 {
        -1
    } else if is_proto(ts[0]) {
        0
    } else {
        let r = proto_index(ts.drop_first());
        if r < 0 {
            -1
        } else {
            r + 1
        }
    }
}

/// A parenthesis.
pub open spec fn is_paren(c: char) -> bool {
    c == '(' || c == ')'
}

/// `s` without leading parentheses.
pub open spec fn strip_leading_parens(s: Seq<char>) -> Seq<char>
    decreases s.len(),
{
    if s.len() > 0 && is_paren(s[0]) {
        strip_leading_parens(s.drop_first())
    } else {
        s
    }
}

/// `s` without trailing parentheses.
pub open spec fn strip_trailing_parens(s: Seq<char>) -> Seq<char>
    decreases s.len(),
{
    if s.len() > 0 && is_paren(s.last()) {
        strip_trailing_parens(s.drop_last())
    } else {
        s
    }
}

/// `str::trim_matches(&['(', ')'])`.
pub open spec fn strip_parens(s: Seq<char>) -> Seq<char> {
    strip_trailing_parens(strip_leading_parens(s))
}

/// Index of the first `->`, or -1.
pub open spec fn arrow_index(s: Seq<char>) -> int {
    if exists|i: int| matches_at(s, i, "->"@) {
        choose|i: int| matches_at(s, i, "->"@) && forall|j: int| 0 <= j < i ==> !matches_at(s, j, "->"@)
    } else {
        -1
    }
}

/// The socket an lsof line describes: the first TCP/UDP column, the name
/// after it (`local->remote` or just `local`) and the state after that with
/// its parentheses removed.
pub open spec fn conn_of_line(line: Seq<char>) -> Option<ConnView> {
    let ts = words(line);
    let p = proto_index(ts);
    if p < 0 || p + 1 >= ts.len() {
        None
    } else {
        let name = ts[p + 1];
        let a = arrow_index(name);
        Some(
            ConnView {
                protocol: ts[p],
                local: if a >= 0 {
                    name.take(a)
                } else {
                    name
                },
                remote: if a >= 0 {
                    Some(name.skip(a + 2))
                } else {
                    None
                },
                state: if p + 2 < ts.len() {
                    Some(strip_parens(ts[p + 2]))
                } else {
                    None
                },
            },
        )
    }
}

/// The sockets of the given lines, in order.
pub open spec fn conns_of(ls: Seq<Seq<char>>) -> Seq<ConnView>
    decreases ls.len(),
{
    if ls.len() == 0 {
        Seq::<ConnView>::empty()
    } else {
        let rest = conns_of(ls.drop_last());
        match conn_of_line(ls.last()) {
            Some(c) => rest.push(c),
            None => rest,
        }
    }
}

/// The sockets of lsof output: every line after the header that names one.
pub open spec fn parse_lsof_spec(out: Seq<char>) -> Seq<ConnView> {
    let ls = lines(out);
    if ls.len() == 0 {
        Seq::<ConnView>::empty()
    } else {
        conns_of(ls.drop_first())
    }
}

fn find_proto(ts: &Vec<Vec<char>>) -> (r: Option<usize>)
    ensures
        match r {
            Some(i) => i < ts@.len() && i == proto_index(ts@.map_values(|t: Vec<char>| t@)),
            None => proto_index(ts@.map_values(|t: Vec<char>| t@)) == -1,
        },
{
    let ghost tv = ts@.map_values(|t: Vec<char>| t@);
    let tcp = chars_of("TCP");
    let udp = chars_of("UDP");
    let mut i: usize = 0;
    assert(tv.skip(0) =~= tv);
    while i < ts.len()
        invariant
            tv == ts@.map_values(|t: Vec<char>| t@),
            tcp@ == "TCP"@,
            udp@ == "UDP"@,
            i <= ts@.len(),
            proto_index(tv) == (if proto_index(tv.skip(i as int)) < 0 {
                -1
            } else {
                i + proto_index(tv.skip(i as int))
            }),
        decreases ts.len() - i,
    {
        assert(tv.skip(i as int)[0] == ts@[i as int]@);
        assert(tv.skip(i as int).drop_first() =~= tv.skip(i + 1));
        if seq_eq(&ts[i], &tcp) || seq_eq(&ts[i], &udp) {
            return Some(i);
        }
        i += 1;
    }
    None
}

fn strip_paren_bounds(s: &[char]) -> (r: (usize, usize))
    ensures
        r.0 <= r.1 <= s@.len(),
        s@.subrange(r.0 as int, r.1 as int) == strip_parens(s@),
{
    let n = s.len();
    let mut a: usize = 0;
    assert(s@.subrange(0, n as int) =~= s@);
    while a < n && (s[a] == '(' || s[a] == ')')
        invariant
            a <= n == s@.len(),
            strip_leading_parens(s@) == strip_leading_parens(s@.subrange(a as int, n as int)),
        decreases n - a,
    {
        assert(s@.subrange(a as int, n as int).drop_first() =~= s@.subrange(a + 1, n as int));
        a += 1;
    }
    if a < n {
        assert(s@.subrange(a as int, n as int)[0] == s@[a as int]);
    }
    let mut b = n;
    while b > a && (s[b - 1] == '(' || s[b - 1] == ')')
        invariant
            a <= b <= n == s@.len(),
            strip_parens(s@) == strip_trailing_parens(s@.subrange(a as int, b as int)),
        decreases b - a,
    {
        assert(s@.subrange(a as int, b as int).drop_last() =~= s@.subrange(a as int, b - 1));
        b -= 1;
    }
    if b > a {
        assert(s@.subrange(a as int, b as int).last() == s@[b - 1]);
    }
    (a, b)
}

fn conn_of(line: &[char]) -> (r: Option<Connection>)
    ensures
        match conn_of_line(line@) {
            Some(c) => r matches Some(k) && k@ == c,
            None => r is None,
        },
{
    proof {
        reveal_strlit("->");
    }
    let ts = split_ws(line);
    let ghost tv = ts@.map_values(|t: Vec<char>| t@);
    assert(tv =~= words(line@));
    let p = match find_proto(&ts) {
        Some(p) => p,
        None => return None,
    };
    if p + 1 >= ts.len() {
        return None;
    }
    let name = &ts[p + 1];
    let arrow = chars_of("->");
    let (local, remote) = match find_from(name, 0, &arrow) {
        Some(a) => {
            proof {
                assert(arrow@.len() == 2);
                assert(matches_at(name@, a as int, "->"@));
                assert(arrow_index(name@) == a);
            }
            let mut l = String::new();
            push_range(&mut l, name, 0, a);
            let nl = name.len();
            assert(a + 2 <= nl);
            let mut r = String::new();
            push_range(&mut r, name, a + 2, nl);
            assert(l@ =~= name@.take(a as int));
            assert(r@ =~= name@.skip(a + 2));
            (l, Some(r))
        },
        None => {
            assert(arrow_index(name@) == -1);
            (string_of(name), None)
        },
    };
    let state = if p + 2 < ts.len() {
        let t = &ts[p + 2];
        let (a, b) = strip_paren_bounds(t);
        let mut st = String::new();
        push_range(&mut st, t, a, b);
        Some(st)
    } else {
        None
    };
    Some(Connection { protocol: string_of(&ts[p]), local, remote, state })
}

/// Parse `lsof -nP -i` output lines like:
/// `lsiagentd 123 root 12u IPv4 0x... 0t0 TCP 10.0.0.5:50000->1.2.3.4:443 (ESTABLISHED)`
#[verifier::spinoff_prover]
#[verifier::rlimit(40)]
pub fn parse_lsof_output(stdout: &str) -> (r: Vec<Connection>)
    ensures
        r@.map_values(|c: Connection| c@) == parse_lsof_spec(stdout@),
{
    let v = chars_of(stdout);
    let ls = split_lines(&v);
    let ghost lv = lines(v@);
    let mut conns: Vec<Connection> = Vec::new();
    if ls.len() == 0 {
        assert(conns@.map_values(|c: Connection| c@) =~= Seq::<ConnView>::empty());
        return conns;
    }
    let ghost body = lv.drop_first();
    let mut i: usize = 1;
    assert(body.take(0) =~= Seq::<Seq<char>>::empty());
    assert(conns@.map_values(|c: Connection| c@) =~= Seq::<ConnView>::empty());
    while i < ls.len()
        invariant
            lv == lines(stdout@),
            lv.len() > 0,
            body == lv.drop_first(),
            ls@.len() == lv.len(),
            forall|k: int| 0 <= k < ls@.len() ==> #[trigger] ls@[k]@ == lv[k],
            1 <= i <= ls@.len(),
            conns@.map_values(|c: Connection| c@) == conns_of(body.take(i - 1)),
        decreases ls.len() - i,
    {
        let ghost before = conns@.map_values(|c: Connection| c@);
        proof {
            assert(body.take(i as int).drop_last() =~= body.take(i - 1));
            assert(body.take(i as int).last() == ls@[i as int]@);
        }
        match conn_of(&ls[i]) {
            Some(c) => {
                conns.push(c);
                assert(conns@.map_values(|c: Connection| c@) =~= before.push(c@));
            },
            None => {},
        }
        i += 1;
    }
    assert(body.take(ls.len() - 1) =~= body);
    conns
}

// ---------------------------------------------------------------------------
// monitor

/// What an lsof query for the daemon came back with.
#[derive(Debug)]
pub enum QueryOutcome {
    /// No daemon process to ask about.
    NoDaemon,
    /// The daemon's sockets.
    Sockets(Vec<Connection>),
    /// lsof could not be run or failed; the message.
    Failed(String),
}

/// Rate-limited holder of the daemon's socket list (refreshed at most every
/// five seconds).
pub struct NetworkMonitor {
    connections: Vec<Connection>,
    last_error: Option<String>,
    check_interval_nanos: u64,
    last_check: Option<u64>,
}

/// Five seconds, in nanoseconds.
pub open spec fn refresh_interval() -> u64 {
    5_000_000_000
}

impl NetworkMonitor {
    /// The sockets held.
    pub closed spec fn conns_view(&self) -> Seq<ConnView> {
        self.connections@.map_values(|c: Connection| c@)
    }

    /// The last query error.
    pub closed spec fn error_view(&self) -> Option<Seq<char>> {
        opt_str(self.last_error)
    }

    /// When the last refresh happened (monotonic nanoseconds).
    pub closed spec fn last_check_view(&self) -> Option<u64> {
        self.last_check
    }

    /// Every monitor refreshes at most once per `refresh_interval()`.
    #[verifier::type_invariant]
    spec fn interval_fixed(&self) -> bool {
        self.check_interval_nanos == refresh_interval()
    }

    /// Whether a refresh at `now` goes ahead: never refreshed, or at least
    /// five seconds since the last refresh (a clock that went backwards
    /// counts as no time passing).
    pub open spec fn due_spec(&self, now: u64) -> bool {
        match self.last_check_view() {
            None => true,
            Some(last) => (if now >= last {
                now - last
            } else {
                0
            }) >= refresh_interval(),
        }
    }

    /// An empty monitor that refreshes on first use.
    pub fn new() -> (r: Self)
        ensures
            r.conns_view() == Seq::<ConnView>::empty(),
            r.error_view() is None,
            r.last_check_view() is None,
    {
        let r = NetworkMonitor {
            connections: Vec::new(),
            last_error: None,
            check_interval_nanos: 5_000_000_000,
            last_check: None,
        };
        assert(r.conns_view() =~= Seq::<ConnView>::empty());
        r
    }

    /// Whether `update` at `now` would refresh (so the caller should query).
    pub fn due(&self, now: u64) -> (r: bool)
        ensures
            r == self.due_spec(now),
    {
        proof {
            use_type_invariant(self);
        }
        match self.last_check {
            None => true,
            Some(last) => {
                let elapsed = if now >= last {
                    now - last
                } else {
                    0
                };
                elapsed >= self.check_interval_nanos
            },
        }
    }

    /// Refresh from the outcome of querying the daemon's sockets at `now`
    /// (rate-limited: nothing changes when not `due`).
    pub fn update(&mut self, now: u64, outcome: QueryOutcome)
        ensures
            !old(self).due_spec(now) ==> final(self).conns_view() == old(self).conns_view()
                && final(self).error_view() == old(self).error_view()
                && final(self).last_check_view() == old(self).last_check_view(),
            old(self).due_spec(now) ==> final(self).last_check_view() == Some(now) && match outcome {
                QueryOutcome::NoDaemon => final(self).conns_view() == Seq::<ConnView>::empty()
                    && final(self).error_view() is None,
                QueryOutcome::Sockets(c) => final(self).conns_view() == c@.map_values(
                    |k: Connection| k@,
                ) && final(self).error_view() is None,
                QueryOutcome::Failed(e) => final(self).conns_view() == Seq::<ConnView>::empty()
                    && final(self).error_view() == Some(e@),
            },
    {
        proof {
            use_type_invariant(&*self);
        }
        if !self.due(now) {
            return;
        }
        self.last_check = Some(now);
        match outcome {
            QueryOutcome::NoDaemon => {
                self.connections = Vec::new();
                self.last_error = None;
            },
            QueryOutcome::Sockets(c) => {
                self.connections = c;
                self.last_error = None;
            },
            QueryOutcome::Failed(e) => {
                self.connections = Vec::new();
                self.last_error = Some(e);
            },
        }
        assert(self.conns_view() == self.connections@.map_values(|c: Connection| c@));
        proof {
            if self.connections@.len() == 0 {
                assert(self.conns_view() =~= Seq::<ConnView>::empty());
            }
        }
    }

    /// The sockets held.
    pub fn connections(&self) -> (r: &[Connection])
        ensures
            r@.map_values(|c: Connection| c@) == self.conns_view(),
    {
        self.connections.as_slice()
    }

    /// The ESTABLISHED sockets, in order.
    pub fn established(&self) -> (r: Vec<&Connection>)
        ensures
            r@.map_values(|c: &Connection| c@) == self.conns_view().filter(
                |c: ConnView| established_spec(c),
            ),
    {
        let ghost cv = self.conns_view();
        let mut out: Vec<&Connection> = Vec::new();
        let mut i: usize = 0;
        assert(cv.take(0).filter(|c: ConnView| established_spec(c)) =~= Seq::<ConnView>::empty());
        assert(out@.map_values(|c: &Connection| c@) =~= Seq::<ConnView>::empty());
        while i < self.connections.len()
            invariant
                cv == self.conns_view(),
                cv.len() == self.connections@.len(),
                i <= cv.len(),
                out@.map_values(|c: &Connection| c@) == cv.take(i as int).filter(
                    |c: ConnView| established_spec(c),
                ),
            decreases self.connections.len() - i,
        {
            let ghost before = out@.map_values(|c: &Connection| c@);
            let c = &self.connections[i];
            proof {
                assert(cv.take(i + 1).drop_last() =~= cv.take(i as int));
                assert(cv.take(i + 1).last() == c@);
                reveal_with_fuel(Seq::filter, 1);
            }
            if c.is_established() {
                out.push(c);
                assert(out@.map_values(|c: &Connection| c@) =~= before.push(c@));
            }
            i += 1;
        }
        assert(cv.take(cv.len() as int) =~= cv);
        out
    }

    /// Whether any socket is ESTABLISHED (the uplink is up).
    pub fn is_connected(&self) -> (r: bool)
        ensures
            r == exists|i: int| 0 <= i < self.conns_view().len() && established_spec(
                #[trigger] self.conns_view()[i],
            ),
    {
        let ghost cv = self.conns_view();
        let mut i: usize = 0;
        while i < self.connections.len()
            invariant
                cv == self.conns_view(),
                cv.len() == self.connections@.len(),
                i <= cv.len(),
                forall|k: int| 0 <= k < i ==> !established_spec(#[trigger] cv[k]),
            decreases self.connections.len() - i,
        {
            if self.connections[i].is_established() {
                assert(established_spec(cv[i as int]));
                return true;
            }
            i += 1;
        }
        false
    }

    /// The message of the last failed query, if the last refresh failed.
    pub fn last_error(&self) -> (r: Option<&str>)
        ensures
            match r {
                Some(s) => self.error_view() == Some(s@),
                None => self.error_view() is None,
            },
    {
        match &self.last_error {
            Some(e) => Some(e.as_str()),
            None => None,
        }
    }
}

} // verus!
