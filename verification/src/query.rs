use vstd::prelude::*;
use vstd::string::{StrSliceExecFns, StringExecFns};
use crate::with_source::CallTraceWithSource;

verus! {

/// Why a trace query failed: the named network is not configured, or
/// the replay collaborator reported the given failure detail.
#[derive(Debug, PartialEq, Eq)]
pub enum QueryError {
    UnknownNetwork(String),
    ReplayFailed(String),
}

impl QueryError {
    /// The message shown to the caller in the error body.
    pub fn error_body(&self) -> (r: String)
        ensures
            self matches QueryError::UnknownNetwork(n) ==> r@ == "Network "@ + n@
                + " not found"@,
            self matches QueryError::ReplayFailed(d) ==> r@ == d@,
    {
        match self {
            QueryError::UnknownNetwork(n) => {
                let mut m = String::from_str("Network ");
                m.append(n.as_str());
                m.append(" not found");
                m
            },
            QueryError::ReplayFailed(d) => d.clone(),
        }
    }
}

/// One configured network: its identifier and the endpoint its replay
/// context is built from.
#[derive(Debug, PartialEq, Eq)]
pub struct NetworkEntry {
    pub network_id: String,
    pub rpc_url: String,
}

/// The configured networks, in configuration order.
#[derive(Debug, PartialEq, Eq)]
pub struct AppConfig {
    pub networks: Vec<NetworkEntry>,
}

/// First position of `c` in `s` at or after `i`, if any.
pub open spec fn char_pos_from(s: Seq<char>, c: char, i: int) -> Option<int>
    decreases s.len() - i,
{
    if i < 0 || i >= s.len() {
        None
    } else if s[i] == c {
        Some(i)
    } else {
        char_pos_from(s, c, i + 1)
    }
}

/// A found character lies within bounds, at or after where the search
/// started, and really is the one sought.
pub proof fn lemma_char_pos_from(s: Seq<char>, c: char, i: int)
    ensures
        char_pos_from(s, c, i) matches Some(p) ==> i <= p && 0 <= p && p < s.len() && s[p] == c,
    decreases s.len() - i,
{
    if !(i < 0 || i >= s.len()) && s[i] != c {
        lemma_char_pos_from(s, c, i + 1);
    }
}

/// The comma-separated pieces of a configuration string.
pub open spec fn spec_pieces(s: Seq<char>) -> Seq<Seq<char>>
    decreases s.len(),
    via spec_pieces_decreases
{
    match char_pos_from(s, ',', 0) {
        Some(p) => seq![s.subrange(0, p)] + spec_pieces(s.subrange(p + 1, s.len() as int)),
        None => seq![s],
    }
}

#[via_fn]
proof fn spec_pieces_decreases(s: Seq<char>) {
    lemma_char_pos_from(s, ',', 0);
}

/// One `network=endpoint` piece, split at its first `=`: everything
/// after that first `=` is the endpoint.  A piece with no `=` at all is
/// malformed.
pub open spec fn spec_entry_of(piece: Seq<char>) -> Option<(Seq<char>, Seq<char>)> {
    match char_pos_from(piece, '=', 0) {
        Some(p) => Some((piece.subrange(0, p), piece.subrange(p + 1, piece.len() as int))),
        None => None,
    }
}

/// All pieces parsed as entries; nothing when any piece is malformed.
pub open spec fn spec_entries_of(ps: Seq<Seq<char>>) -> Option<Seq<(Seq<char>, Seq<char>)>>
    decreases ps.len(),
{
    if ps.len() == 0 {
        Some(Seq::empty())
    } else {
        match spec_entry_of(ps[0]) {
            None => None,
            Some(e) => match spec_entries_of(ps.subrange(1, ps.len() as int)) {
                None => None,
                Some(rest) => Some(seq![e] + rest),
            },
        }
    }
}

/// The identifier/endpoint views of a list of network entries.
pub open spec fn entry_views(ns: Seq<NetworkEntry>) -> Seq<(Seq<char>, Seq<char>)> {
    Seq::new(ns.len(), |i: int| (ns[i].network_id@, ns[i].rpc_url@))
}

/// Finds the first character position of `c` at or after `from`.
fn find_char(s: &str, c: char, from: usize) -> (r: Option<usize>)
    requires
        from <= s@.len(),
    ensures
        r matches Some(p) ==> char_pos_from(s@, c, from as int) == Some(p as int),
        r is None ==> char_pos_from(s@, c, from as int) is None,
{
    let n = s.unicode_len();
    let mut i: usize = from;
    while i < n
        invariant
            from <= i <= n,
            n == s@.len(),
            char_pos_from(s@, c, from as int) == char_pos_from(s@, c, i as int),
        decreases n - i,
    {
        if s.get_char(i) == c {
            return Some(i);
        }
        i = i + 1;
    }
    None
}

/// Parses a `name=url,name=url` configuration string into network
/// entries; nothing when some piece carries no `=`.
pub fn parse_network_specs(s: &str) -> (r: Option<Vec<NetworkEntry>>)
    ensures
        r is Some <==> spec_entries_of(spec_pieces(s@)) is Some,
        r matches Some(v) ==> spec_entries_of(spec_pieces(s@)) == Some(entry_views(v@)),
    decreases s@.len(),
{
    proof {
        lemma_char_pos_from(s@, ',', 0);
    }
    let n = s.unicode_len();
    match find_char(s, ',', 0) {
        Some(p) => {
            let head = s.substring_char(0, p);
            let tail = s.substring_char(p + 1, n);
            proof {
                let ps = spec_pieces(s@);
                assert(ps == seq![head@] + spec_pieces(tail@));
                assert(ps[0] == head@);
                assert(ps.subrange(1, ps.len() as int) =~= spec_pieces(tail@));
            }
            let entry = match parse_entry(head) {
                Some(e) => e,
                None => {
                    return None;
                },
            };
            match parse_network_specs(tail) {
                Some(mut rest) => {
                    let ghost rest_snap = rest@;
                    let mut out: Vec<NetworkEntry> = Vec::new();
                    out.push(entry);
                    out.append(&mut rest);
                    proof {
                        let ps = spec_pieces(s@);
                        assert(ps.subrange(1, ps.len() as int) =~= spec_pieces(tail@));
                        assert(entry_views(out@) =~= seq![
                            (entry.network_id@, entry.rpc_url@),
                        ] + entry_views(rest_snap));
                        assert(spec_entries_of(spec_pieces(s@)) == Some(entry_views(out@)));
                    }
                    Some(out)
                },
                None => {
                    proof {
                        let ps = spec_pieces(s@);
                        assert(ps.subrange(1, ps.len() as int) =~= spec_pieces(tail@));
                    }
                    None
                },
            }
        },
        None => {
            match parse_entry(s) {
                Some(e) => {
                    let mut out: Vec<NetworkEntry> = Vec::new();
                    out.push(e);
                    proof {
                        let ps = spec_pieces(s@);
                        assert(ps == seq![s@]);
                        assert(ps.subrange(1, ps.len() as int) =~= Seq::<Seq<char>>::empty());
                        assert(entry_views(out@) =~= seq![(e.network_id@, e.rpc_url@)]);
                        assert(spec_entries_of(Seq::<Seq<char>>::empty()) == Some(
                            Seq::<(Seq<char>, Seq<char>)>::empty(),
                        ));
                        assert(seq![(e.network_id@, e.rpc_url@)] + Seq::<
                            (Seq<char>, Seq<char>),
                        >::empty() =~= entry_views(out@));
                        assert(spec_entries_of(spec_pieces(s@)) == Some(entry_views(out@)));
                    }
                    Some(out)
                },
                None => {
                    proof {
                        let ps = spec_pieces(s@);
                        assert(ps == seq![s@]);
                        assert(ps[0] == s@);
                    }
                    None
                },
            }
        },
    }
}

/// Parses one `name=url` piece at its first `=`.
fn parse_entry(piece: &str) -> (r: Option<NetworkEntry>)
    ensures
        r is Some <==> spec_entry_of(piece@) is Some,
        r matches Some(e) ==> spec_entry_of(piece@) == Some((e.network_id@, e.rpc_url@)),
{
    proof {
        lemma_char_pos_from(piece@, '=', 0);
    }
    let n = piece.unicode_len();
    match find_char(piece, '=', 0) {
        Some(p) => {
            let network_id = piece.substring_char(0, p).to_owned();
            let rpc_url = piece.substring_char(p + 1, n).to_owned();
            Some(NetworkEntry { network_id, rpc_url })
        },
        None => None,
    }
}

/// First entry configured under the given identifier, at or after `i`.
pub open spec fn lookup_from(ns: Seq<NetworkEntry>, id: Seq<char>, i: int) -> Option<int>
    decreases ns.len() - i,
{
    if i < 0 || i >= ns.len() {
        None
    } else if ns[i].network_id@ == id {
        Some(i)
    } else {
        lookup_from(ns, id, i + 1)
    }
}

impl AppConfig {
    /// The first configured entry under the identifier, if any.
    pub open spec fn spec_lookup(self, id: Seq<char>) -> Option<int> {
        lookup_from(self.networks@, id, 0)
    }

    /// Builds the configuration from a `name=url,name=url` string;
    /// nothing when the string is malformed.
    pub fn new(rpc_urls: &str) -> (r: Option<Self>)
        ensures
            r is Some <==> spec_entries_of(spec_pieces(rpc_urls@)) is Some,
            r matches Some(c) ==> spec_entries_of(spec_pieces(rpc_urls@)) == Some(
                entry_views(c.networks@),
            ),
    {
        match parse_network_specs(rpc_urls) {
            Some(networks) => Some(AppConfig { networks }),
            None => None,
        }
    }

    /// Resolves a network identifier to its configured endpoint.  An
    /// identifier that is not configured is refused as `UnknownNetwork`
    /// without any further work.
    pub fn resolve_network(&self, network_id: &String) -> (r: Result<String, QueryError>)
        ensures
            self.spec_lookup(network_id@) matches Some(k) ==> (r matches Ok(u) && u@
                == self.networks@[k].rpc_url@),
            self.spec_lookup(network_id@) is None ==> (r matches Err(e) && e matches
                QueryError::UnknownNetwork(n) && n@ == network_id@),
    {
        let n = self.networks.len();
        let mut i: usize = 0;
        while i < n
            invariant
                i <= n,
                n == self.networks@.len(),
                lookup_from(self.networks@, network_id@, 0) == lookup_from(
                    self.networks@,
                    network_id@,
                    i as int,
                ),
            decreases n - i,
        {
            if self.networks[i].network_id == *network_id {
                return Ok(self.networks[i].rpc_url.clone());
            }
            i = i + 1;
        }
        Err(QueryError::UnknownNetwork(network_id.clone()))
    }

}

/// Folds the replay collaborator's outcome into the query result: a
/// trace passes through unchanged, a failure detail surfaces verbatim
/// as `ReplayFailed`.
pub fn finish_replay(outcome: Result<Option<Vec<CallTraceWithSource>>, String>) -> (r: Result<
    Option<Vec<CallTraceWithSource>>,
    QueryError,
>)
    ensures
        outcome matches Ok(t) ==> r == Ok::<Option<Vec<CallTraceWithSource>>, QueryError>(t),
        outcome matches Err(d) ==> r == Err::<Option<Vec<CallTraceWithSource>>, QueryError>(
            QueryError::ReplayFailed(d),
        ),
{
    match outcome {
        Ok(t) => Ok(t),
        Err(d) => Err(QueryError::ReplayFailed(d)),
    }
}

} // verus!
