//! The protocol-facing service: parsing request lines into commands,
//! the agent registry with its single process-wide "current agent", and
//! the dispatch step that turns a command into a response text.
//!
//! Connection handling itself (sockets, the read/write loop) lives
//! outside the library; the library supplies the decisions: what a line
//! means, what it does to the registry, and what text goes back.

use vstd::prelude::*;
use crate::app::{spec_answer, result_view, Agent, OpenAPIAgent};
use crate::errors::Error;
use crate::textutil::{
    chars_of, is_unicode_space, is_unicode_space_exec, spec_dec, string_from_range, u64_to_string,
};

verus! {

/// The TCP port the service uses by default.
pub const PORT: u16 = 7878;

/// Whitespace that separates tokens on a request line: the Unicode
/// white-space class.
pub open spec fn is_space_char(c: char) -> bool {
    is_unicode_space(c)
}

fn is_space_exec(c: char) -> (r: bool)
    ensures
        r == is_space_char(c),
{
    is_unicode_space_exec(c)
}

/// The length of the maximal leading run of non-space characters.
pub open spec fn spec_word_len(s: Seq<char>) -> int
    decreases s.len(),
{
    if s.len() == 0 || is_space_char(s[0]) {
        0
    } else {
        1 + spec_word_len(s.drop_first())
    }
}

proof fn lemma_word_len_bounds(s: Seq<char>)
    ensures
        0 <= spec_word_len(s) <= s.len(),
        s.len() > 0 && !is_space_char(s[0]) ==> spec_word_len(s) >= 1,
    decreases s.len(),
{
    if s.len() > 0 && !is_space_char(s[0]) {
        lemma_word_len_bounds(s.drop_first());
    }
}

proof fn lemma_word_len_at(s: Seq<char>, j: int)
    requires
        0 <= j <= s.len(),
        forall|k: int| 0 <= k < j ==> !is_space_char(#[trigger] s[k]),
        j < s.len() ==> is_space_char(s[j]),
    ensures
        spec_word_len(s) == j,
    decreases j,
{
    if j == 0 {
    } else {
        let d = s.drop_first();
        assert(forall|k: int| 0 <= k < j - 1 ==> #[trigger] d[k] == s[k + 1]);
        lemma_word_len_at(d, j - 1);
    }
}

#[via_fn]
proof fn spec_tokens_decreases(s: Seq<char>) {
    lemma_word_len_bounds(s);
}

/// The whitespace-delimited tokens of a line, in order.
pub open spec fn spec_tokens(s: Seq<char>) -> Seq<Seq<char>>
    decreases s.len(),
    via spec_tokens_decreases
{
    if s.len() == 0 {
        Seq::empty()
    } else if is_space_char(s[0]) {
        spec_tokens(s.drop_first())
    } else {
        seq![s.take(spec_word_len(s))] + spec_tokens(s.skip(spec_word_len(s)))
    }
}

/// Splits a line into its whitespace-delimited words.
#[verifier::loop_isolation(false)]
pub fn split_words(line: &str) -> (r: Vec<String>)
    ensures
        r.deep_view() == spec_tokens(line@),
{
    let cs = chars_of(line);
    let mut words: Vec<String> = Vec::new();
    let mut pos: usize = 0;
    proof {
        assert(words.deep_view() =~= Seq::<Seq<char>>::empty());
        assert(cs@.skip(0) =~= cs@);
        assert(Seq::<Seq<char>>::empty() + spec_tokens(cs@) =~= spec_tokens(cs@));
    }
    while pos < cs.len()
        invariant
            pos <= cs@.len(),
            spec_tokens(line@) == words.deep_view() + spec_tokens(cs@.skip(pos as int)),
        decreases cs@.len() - pos,
    {
        let ghost pre = words.deep_view();
        if is_space_exec(cs[pos]) {
            proof {
                assert(cs@.skip(pos as int).drop_first() =~= cs@.skip(pos + 1));
            }
            pos = pos + 1;
        } else {
            let start = pos;
            let mut end = pos;
            #[verifier::loop_isolation(true)]
            loop
                invariant
                    start <= end <= cs@.len(),
                    forall|k: int| start <= k < end ==> !is_space_char(#[trigger] cs@[k]),
                ensures
                    start <= end <= cs@.len(),
                    forall|k: int| start <= k < end ==> !is_space_char(#[trigger] cs@[k]),
                    end < cs@.len() ==> is_space_char(cs@[end as int]),
                decreases cs@.len() - end,
            {
                if end >= cs.len() {
                    break ;
                }
                if is_space_exec(cs[end]) {
                    break ;
                }
                end = end + 1;
            }
            let w = string_from_range(&cs, start, end);
            words.push(w);
            proof {
                let suf = cs@.skip(start as int);
                assert(forall|k: int|
                    0 <= k < suf.len() ==> #[trigger] suf[k] == cs@[start + k]);
                lemma_word_len_at(suf, end - start);
                assert(suf.take(end - start) =~= cs@.subrange(start as int, end as int));
                assert(suf.skip(end - start) =~= cs@.skip(end as int));
                assert(spec_tokens(suf) == seq![cs@.subrange(start as int, end as int)]
                    + spec_tokens(cs@.skip(end as int)));
                assert(words.deep_view() =~= pre + seq![cs@.subrange(start as int, end as int)]);
                assert(pre + (seq![cs@.subrange(start as int, end as int)] + spec_tokens(
                    cs@.skip(end as int),
                )) =~= (pre + seq![cs@.subrange(start as int, end as int)]) + spec_tokens(
                    cs@.skip(end as int),
                ));
            }
            pos = end;
        }
    }
    proof {
        assert(cs@.skip(cs@.len() as int) =~= Seq::<char>::empty());
        assert(spec_tokens(Seq::<char>::empty()) == Seq::<Seq<char>>::empty());
        assert(words.deep_view() + Seq::<Seq<char>>::empty() =~= words.deep_view());
    }
    words
}

/// The words joined back with single spaces.
pub open spec fn spec_join(ws: Seq<Seq<char>>) -> Seq<char>
    decreases ws.len(),
{
    if ws.len() == 0 {
        Seq::empty()
    } else if ws.len() == 1 {
        ws[0]
    } else {
        ws[0] + seq![' '] + spec_join(ws.drop_first())
    }
}

proof fn lemma_join_snoc(ws: Seq<Seq<char>>, w: Seq<char>)
    ensures
        ws.len() == 0 ==> spec_join(ws.push(w)) == w,
        ws.len() > 0 ==> spec_join(ws.push(w)) == spec_join(ws) + seq![' '] + w,
    decreases ws.len(),
{
    let p = ws.push(w);
    if ws.len() == 0 {
        assert(p.len() == 1);
        assert(p[0] == w);
    } else if ws.len() == 1 {
        assert(p.len() == 2);
        assert(p[0] == ws[0]);
        assert(p.drop_first() =~= seq![w]);
        assert(spec_join(seq![w]) == w);
    } else {
        assert(p[0] == ws[0]);
        assert(p.drop_first() =~= ws.drop_first().push(w));
        lemma_join_snoc(ws.drop_first(), w);
        assert(ws[0] + seq![' '] + (spec_join(ws.drop_first()) + seq![' '] + w) =~= (ws[0]
            + seq![' '] + spec_join(ws.drop_first())) + seq![' '] + w);
    }
}

/// Joins the words from index `from` on with single spaces.
#[verifier::loop_isolation(false)]
pub fn join_words(words: &Vec<String>, from: usize) -> (r: String)
    requires
        from <= words@.len(),
    ensures
        r@ == spec_join(words.deep_view().skip(from as int)),
{
    let ghost dv = words.deep_view();
    let mut r = String::new();
    let mut i: usize = from;
    proof {
        assert(dv.subrange(from as int, from as int) =~= Seq::<Seq<char>>::empty());
    }
    while i < words.len()
        invariant
            from <= i <= words@.len(),
            r@ == spec_join(dv.subrange(from as int, i as int)),
        decreases words@.len() - i,
    {
        let ghost pre = dv.subrange(from as int, i as int);
        if i > from {
            r.append(" ");
        }
        r.append(words[i].as_str());
        proof {
            reveal_strlit(" ");
            assert(" "@ =~= seq![' ']);
            assert(dv[i as int] == words@[i as int]@);
            lemma_join_snoc(pre, dv[i as int]);
            assert(dv.subrange(from as int, i + 1) =~= pre.push(dv[i as int]));
            if i == from {
                assert(r@ =~= spec_join(pre.push(dv[i as int])));
            } else {
                assert(r@ =~= spec_join(pre) + seq![' '] + dv[i as int]);
            }
        }
        i = i + 1;
    }
    proof {
        assert(dv.subrange(from as int, words@.len() as int) =~= dv.skip(from as int));
    }
    r
}

/// Trailing whitespace removed from a request line.
pub open spec fn spec_trim_end(s: Seq<char>) -> Seq<char>
    decreases s.len(),
{
    if s.len() > 0 && is_space_char(s.last()) {
        spec_trim_end(s.drop_last())
    } else {
        s
    }
}

/// Strips trailing whitespace (the newline the client sent, and any
/// blanks before it) from a request line.
#[verifier::loop_isolation(false)]
pub fn trim_line(line: &str) -> (r: String)
    ensures
        r@ == spec_trim_end(line@),
{
    let cs = chars_of(line);
    let mut end = cs.len();
    proof {
        assert(cs@.take(cs@.len() as int) =~= cs@);
    }
    #[verifier::loop_isolation(true)]
    loop
        invariant
            end <= cs@.len(),
            spec_trim_end(line@) == spec_trim_end(cs@.take(end as int)),
        ensures
            end <= cs@.len(),
            spec_trim_end(line@) == spec_trim_end(cs@.take(end as int)),
            end > 0 ==> !is_space_char(cs@[end - 1]),
        decreases end,
    {
        if end == 0 {
            break ;
        }
        if !is_space_exec(cs[end - 1]) {
            break ;
        }
        proof {
            let t = cs@.take(end as int);
            assert(t.last() == cs@[end - 1]);
            assert(t.drop_last() =~= cs@.take(end - 1));
        }
        end = end - 1;
    }
    proof {
        let t = cs@.take(end as int);
        if end > 0 {
            assert(t.last() == cs@[end - 1]);
        }
        assert(spec_trim_end(t) == t);
    }
    string_from_range(&cs, 0, end)
}

/// One parsed request line. The first whitespace-delimited token selects
/// the command; the rest is its argument material.
pub enum Command {
    /// Register a new corpus agent for the given source.
    ApiAdd(String),
    /// Ask the current agent the given question (tokens re-joined with
    /// single spaces).
    Ask(String),
    /// Select the agent with the given key.
    Select(String),
    /// List the registered agents.
    Ls,
    /// An unrecognized command word (or an empty line).
    Unknown,
    /// A recognized command whose required argument is missing.
    Malformed,
}

/// Parses one request line into a command.
pub fn parse_command(line: &str) -> (c: Command)
    ensures
        ({
            let ts = spec_tokens(line@);
            if ts.len() == 0 {
                c is Unknown
            } else if ts[0] == "apiadd"@ {
                if ts.len() >= 2 {
                    c matches Command::ApiAdd(src) && src@ == ts[1]
                } else {
                    c is Malformed
                }
            } else if ts[0] == "ask"@ {
                c matches Command::Ask(q) && q@ == spec_join(ts.drop_first())
            } else if ts[0] == "set"@ {
                c matches Command::Select(k) && k@ == spec_join(ts.drop_first())
            } else if ts[0] == "ls"@ {
                c is Ls
            } else {
                c is Unknown
            }
        }),
{
    let words = split_words(line);
    let ghost ts = spec_tokens(line@);
    if words.len() == 0 {
        return Command::Unknown;
    }
    proof {
        assert(words.deep_view()[0] == words@[0]@);
        assert(words.deep_view().skip(1) =~= ts.drop_first());
    }
    let kw_apiadd = String::from_str("apiadd");
    let kw_ask = String::from_str("ask");
    let kw_set = String::from_str("set");
    let kw_ls = String::from_str("ls");
    if words[0] == kw_apiadd {
        if words.len() >= 2 {
            proof {
                assert(words.deep_view()[1] == words@[1]@);
            }
            Command::ApiAdd(words[1].clone())
        } else {
            Command::Malformed
        }
    } else if words[0] == kw_ask {
        Command::Ask(join_words(&words, 1))
    } else if words[0] == kw_set {
        Command::Select(join_words(&words, 1))
    } else if words[0] == kw_ls {
        Command::Ls
    } else {
        Command::Unknown
    }
}

/// The key under which an OpenAPI corpus agent is registered.
pub open spec fn spec_agent_key(source: Seq<char>) -> Seq<char> {
    "OpenAPI agent @ "@ + source
}

/// One rendered listing line: the one-based position, the key, a
/// `(current)` marker on the current agent.
pub open spec fn spec_listing_entry(i: int, key: Seq<char>, curr: Seq<char>) -> Seq<char> {
    "["@ + spec_dec(i + 1) + "] "@ + key + (if key == curr {
        " (current)"@
    } else {
        Seq::<char>::empty()
    }) + "\n"@
}

/// The listing text from entry `i` on.
pub open spec fn spec_listing_from(keys: Seq<Seq<char>>, curr: Seq<char>, i: int) -> Seq<char>
    decreases keys.len() - i,
{
    if i < 0 || i >= keys.len() {
        Seq::empty()
    } else {
        spec_listing_entry(i, keys[i], curr) + spec_listing_from(keys, curr, i + 1)
    }
}

/// The protocol-facing service state: the registered agents (unique
/// keys, registration order kept) and the single process-wide current
/// agent key. Every connection sees and can change the same selection.
pub struct API {
    agents: Vec<(String, Agent)>,
    curr_agent: String,
}

impl API {
    /// The registered (key, agent) pairs, in registration order.
    pub closed spec fn agents_view(&self) -> Seq<(Seq<char>, Agent)> {
        self.agents@.map_values(|p: (String, Agent)| (p.0@, p.1))
    }

    /// The current agent key; empty before any registration.
    pub closed spec fn curr(&self) -> Seq<char> {
        self.curr_agent@
    }

    /// The registered keys, in registration order.
    pub open spec fn keys(&self) -> Seq<Seq<char>> {
        self.agents_view().map_values(|p: (Seq<char>, Agent)| p.0)
    }

    /// Whether some agent is registered under `k`.
    pub open spec fn has_key(&self, k: Seq<char>) -> bool {
        exists|i: int|
            0 <= i < self.agents_view().len() && (#[trigger] self.agents_view()[i]).0 == k
    }

    /// The position of the agent registered under `k`.
    pub open spec fn index_of_key(&self, k: Seq<char>) -> int {
        choose|i: int|
            0 <= i < self.agents_view().len() && (#[trigger] self.agents_view()[i]).0 == k
    }

    /// The agent registered under `k`.
    pub open spec fn agent_at(&self, k: Seq<char>) -> Agent {
        self.agents_view()[self.index_of_key(k)].1
    }

    /// The registry invariant: keys are unique, and every registered
    /// agent is well formed.
    pub open spec fn wf(&self) -> bool {
        &&& forall|i: int, j: int|
            0 <= i < j < self.agents_view().len() ==> (#[trigger] self.agents_view()[i]).0 != (
            #[trigger] self.agents_view()[j]).0
        &&& forall|i: int|
            0 <= i < self.agents_view().len() ==> (#[trigger] self.agents_view()[i]).1.wf()
    }

    /// A fresh service: no agents, no current selection.
    pub fn new() -> (r: Result<API, Error>)
        ensures
            r matches Ok(api) && api.wf() && api.agents_view() == Seq::<(Seq<char>, Agent)>::empty()
                && api.curr() == Seq::<char>::empty(),
    {
        let api = API { agents: Vec::new(), curr_agent: String::new() };
        proof {
            assert(api.agents_view() =~= Seq::<(Seq<char>, Agent)>::empty());
        }
        Ok(api)
    }

    fn find_agent_index(&self, key: &String) -> (r: Option<usize>)
        ensures
            match r {
                Some(i) => i < self.agents_view().len() && self.agents_view()[i as int].0 == key@
                    && self.has_key(key@),
                None => !self.has_key(key@),
            },
    {
        let mut i: usize = 0;
        while i < self.agents.len()
            invariant
                i <= self.agents@.len(),
                self.agents_view().len() == self.agents@.len(),
                forall|k: int| 0 <= k < i ==> (#[trigger] self.agents_view()[k]).0 != key@,
            decreases self.agents@.len() - i,
        {
            proof {
                assert(self.agents_view()[i as int].0 == self.agents@[i as int].0@);
            }
            if self.agents[i].0 == *key {
                return Some(i);
            }
            i = i + 1;
        }
        None
    }

    /// Selects an existing agent as current. An absent key is an
    /// `UnknownKey` error and changes nothing.
    pub fn set_agent(&mut self, ag: &str) -> (r: Result<String, Error>)
        requires
            old(self).wf(),
        ensures
            final(self).wf(),
            final(self).agents_view() == old(self).agents_view(),
            if old(self).has_key(ag@) {
                final(self).curr() == ag@ && (r matches Ok(s) && s@ == "Success"@)
            } else {
                *final(self) == *old(self) && r == Err::<String, Error>(Error::UnknownKey)
            },
    {
        let key = String::from_str(ag);
        match self.find_agent_index(&key) {
            Some(_) => {
                self.curr_agent = key;
                Ok(String::from_str("Success"))
            },
            None => Err(Error::UnknownKey),
        }
    }

    /// Renders the registry listing, one line per agent, in registration
    /// order, with a `(current)` marker on the current agent.
    #[verifier::loop_isolation(false)]
    pub fn list_agents(&self) -> (r: Result<String, Error>)
        ensures
            r matches Ok(s) && s@ == spec_listing_from(self.keys(), self.curr(), 0),
    {
        let mut res = String::new();
        let ghost ks = self.keys();
        let mut i: usize = 0;
        while i < self.agents.len()
            invariant
                i <= self.agents@.len(),
                ks.len() == self.agents@.len(),
                spec_listing_from(ks, self.curr(), 0) == res@ + spec_listing_from(
                    ks,
                    self.curr(),
                    i as int,
                ),
            decreases self.agents@.len() - i,
        {
            let ghost pre = res@;
            proof {
                assert(ks[i as int] == self.agents@[i as int].0@);
            }
            res.append("[");
            let num = u64_to_string((i as u64) + 1);
            res.append(num.as_str());
            res.append("] ");
            res.append(self.agents[i].0.as_str());
            if self.agents[i].0 == self.curr_agent {
                res.append(" (current)");
            }
            res.append("\n");
            proof {
                assert(res@ =~= pre + spec_listing_entry(i as int, ks[i as int], self.curr()));
                assert(pre + (spec_listing_entry(i as int, ks[i as int], self.curr())
                    + spec_listing_from(ks, self.curr(), i + 1)) =~= (pre + spec_listing_entry(
                    i as int,
                    ks[i as int],
                    self.curr(),
                )) + spec_listing_from(ks, self.curr(), i + 1));
            }
            i = i + 1;
        }
        Ok(res)
    }

    /// Registers a new OpenAPI corpus agent under the key derived from
    /// its source and makes it current. A taken key changes nothing and
    /// answers "Key already exists".
    pub fn init_openapiagent(&mut self, url: &str, agent: OpenAPIAgent) -> (r: Result<
        String,
        Error,
    >)
        requires
            old(self).wf(),
            agent.wf(),
        ensures
            final(self).wf(),
            if old(self).has_key(spec_agent_key(url@)) {
                *final(self) == *old(self) && (r matches Ok(s) && s@ == "Key already exists"@)
            } else {
                final(self).agents_view() == old(self).agents_view().push(
                    (spec_agent_key(url@), Agent::OpenAPI(agent)),
                ) && final(self).curr() == spec_agent_key(url@) && (r matches Ok(s) && s@
                    == "Success"@)
            },
    {
        let mut key = String::from_str("OpenAPI agent @ ");
        key.append(url);
        match self.find_agent_index(&key) {
            Some(_) => Ok(String::from_str("Key already exists")),
            None => {
                let ghost pre = self.agents_view();
                self.agents.push((key.clone(), Agent::OpenAPI(agent)));
                self.curr_agent = key;
                proof {
                    assert(self.agents_view() =~= pre.push(
                        (spec_agent_key(url@), Agent::OpenAPI(agent)),
                    ));
                }
                Ok(String::from_str("Success"))
            },
        }
    }

    /// Forwards a query vector to the current agent. With no current
    /// agent the query fails with `NoCurrentAgent`. The registry and the
    /// selection stay as they are either way.
    pub fn ask_agent(&mut self, query_vec: &Vec<i64>) -> (r: Result<String, Error>)
        requires
            old(self).wf(),
        ensures
            *final(self) == *old(self),
            if old(self).has_key(old(self).curr()) {
                result_view(r) == spec_answer(
                    &old(self).agent_at(old(self).curr()),
                    query_vec@,
                )
            } else {
                r == Err::<String, Error>(Error::NoCurrentAgent)
            },
    {
        let key = self.curr_agent.clone();
        match self.find_agent_index(&key) {
            None => Err(Error::NoCurrentAgent),
            Some(i) => {
                proof {
                    let k = self.curr();
                    let j = self.index_of_key(k);
                    assert(0 <= j < self.agents_view().len() && self.agents_view()[j].0 == k);
                    if i as int != j {
                        assert((self.agents_view()[i as int]).0 != (self.agents_view()[j]).0);
                        assert(false);
                    }
                    assert(self.agents_view()[i as int].1.wf());
                    assert(self.agents@[i as int].1 == self.agents_view()[i as int].1);
                }
                let ans = self.agents[i].1.execute(query_vec);
                ans
            },
        }
    }

    /// One dispatch step of the protocol server: applies a parsed command
    /// to the registry and returns the response text. The material only
    /// outside collaborators can produce comes in as arguments: a built
    /// agent for `ApiAdd`, an embedded query vector for `Ask`. Business
    /// errors become ordinary textual responses; nothing here ends a
    /// connection.
    pub fn execute(&mut self, cmd: Command, add_agent: Option<OpenAPIAgent>, query_vec: Option<
        Vec<i64>,
    >) -> (r: String)
        requires
            old(self).wf(),
            cmd matches Command::ApiAdd(_) ==> add_agent matches Some(a) && a.wf(),
            cmd matches Command::Ask(_) ==> query_vec is Some,
        ensures
            final(self).wf(),
            match cmd {
                Command::ApiAdd(src) => {
                    let k = spec_agent_key(src@);
                    if old(self).has_key(k) {
                        *final(self) == *old(self) && r@ == "Key already exists"@
                    } else {
                        final(self).agents_view() == old(self).agents_view().push(
                            (k, Agent::OpenAPI(add_agent->0)),
                        ) && final(self).curr() == k && r@ == "Success"@
                    }
                },
                Command::Ask(_) => *final(self) == *old(self) && (if old(self).has_key(
                    old(self).curr(),
                ) {
                    match spec_answer(&old(self).agent_at(old(self).curr()), (query_vec->0)@) {
                        Ok(t) => r@ == t,
                        Err(e) => r@ == e.spec_message(),
                    }
                } else {
                    r@ == Error::NoCurrentAgent.spec_message()
                }),
                Command::Select(k) => final(self).agents_view() == old(self).agents_view() && (if old(
                    self,
                ).has_key(k@) {
                    final(self).curr() == k@ && r@ == "Success"@
                } else {
                    *final(self) == *old(self) && r@ == Error::UnknownKey.spec_message()
                }),
                Command::Ls => *final(self) == *old(self) && r@ == spec_listing_from(
                    old(self).keys(),
                    old(self).curr(),
                    0,
                ),
                Command::Unknown => *final(self) == *old(self) && r@ == "Unknown input"@,
                Command::Malformed => *final(self) == *old(self) && r@
                    == Error::ProtocolFrame.spec_message(),
            },
    {
        match cmd {
            Command::ApiAdd(src) => {
                let agent = match add_agent {
                    Some(a) => a,
                    None => {
                        proof {
                            assert(false);
                        }
                        return String::new();
                    },
                };
                match self.init_openapiagent(src.as_str(), agent) {
                    Ok(s) => s,
                    Err(e) => e.message(),
                }
            },
            Command::Ask(_) => {
                let qv = match &query_vec {
                    Some(v) => v,
                    None => {
                        proof {
                            assert(false);
                        }
                        return String::new();
                    },
                };
                match self.ask_agent(qv) {
                    Ok(t) => t,
                    Err(e) => e.message(),
                }
            },
            Command::Select(k) => {
                match self.set_agent(k.as_str()) {
                    Ok(s) => s,
                    Err(e) => e.message(),
                }
            },
            Command::Ls => {
                match self.list_agents() {
                    Ok(s) => s,
                    Err(e) => e.message(),
                }
            },
            Command::Unknown => String::from_str("Unknown input"),
            Command::Malformed => Error::ProtocolFrame.message(),
        }
    }
}

} // verus!
