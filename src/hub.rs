use vstd::prelude::*;

use crate::model::{Config, Request};
use crate::stats::{flatten, Stats};
use crate::store::VarStore;
use crate::text::{append_chars, chars_of, str_eq, string_of};

verus! {

/// The content types the hub accepts for uploaded files.
#[derive(Clone, Copy, Debug, PartialEq, Eq, Structural)]
pub enum ContentType {
    Yml,
}

impl ContentType {
    /// The MIME type text.
    pub fn as_str(&self) -> (r: &'static str)
        ensures
            r@ == "text/yaml"@,
    {
        match self {
            ContentType::Yml => "text/yaml",
        }
    }
}

/// An error answer of the hub's REST interface.
#[derive(Clone, Debug)]
pub struct ErrorResponse {
    pub code: u16,
    pub description: String,
}

impl ErrorResponse {
    pub fn new(code: u16, description: &str) -> (r: ErrorResponse)
        ensures
            r.code == code,
            r.description@ == description@,
    {
        ErrorResponse { code, description: String::from_str(description) }
    }
}

/// The answer to a query for nodes: how many are registered and how many
/// are running a job.
#[derive(Clone, Copy, Debug, PartialEq, Eq, Structural)]
pub struct NodesResponse {
    pub available_nodes: usize,
    pub bombarding_nodes: usize,
}

impl NodesResponse {
    pub fn new(available_nodes: usize, bombarding_nodes: usize) -> (r: NodesResponse)
        ensures
            r.available_nodes == available_nodes,
            r.bombarding_nodes == bombarding_nodes,
    {
        NodesResponse { available_nodes, bombarding_nodes }
    }
}

/// The state of a node connection at the hub.
#[derive(Clone, Copy, Debug, PartialEq, Eq, Structural)]
pub enum NodeState {
    /// Connected, no job dispatched yet.
    Registered,
    /// Running a dispatched job.
    Bombarding,
    /// Finished its last job.
    Idle,
}

/// A node connection known to the hub.
#[derive(Clone, Debug)]
pub struct NodeEntry {
    pub id: String,
    pub state: NodeState,
}

/// The hub's registry of node connections, each id at most once.
pub struct NodeRegistry {
    nodes: Vec<NodeEntry>,
}

/// The ids of `s` are pairwise distinct.
pub open spec fn ids_unique(s: Seq<NodeEntry>) -> bool {
    forall|i: int, j: int| 0 <= i < s.len() && 0 <= j < s.len() && i != j ==> #[trigger] s[i].id@ != #[trigger] s[j].id@
}

/// The number of entries of `s` that are running a job.
pub open spec fn count_bombarding(s: Seq<NodeEntry>) -> nat
    decreases s.len(),
{
    if s.len() == 0 {
        0
    } else {
        count_bombarding(s.drop_last()) + if s.last().state == NodeState::Bombarding { 1nat } else { 0nat }
    }
}

/// `b` is `a` with every entry's state set to `st`.
pub open spec fn all_set(a: Seq<NodeEntry>, b: Seq<NodeEntry>, st: NodeState) -> bool {
    a.len() == b.len() && forall|i: int| 0 <= i < a.len() ==> #[trigger] b[i].id@ == a[i].id@ && b[i].state == st
}

proof fn lemma_count_all(s: Seq<NodeEntry>, st: NodeState)
    requires
        forall|i: int| 0 <= i < s.len() ==> (#[trigger] s[i]).state == st,
    ensures
        count_bombarding(s) == if st == NodeState::Bombarding { s.len() } else { 0 },
    decreases s.len(),
{
    if s.len() > 0 {
        lemma_count_all(s.drop_last(), st);
    }
}

proof fn lemma_count_bound(s: Seq<NodeEntry>)
    ensures
        count_bombarding(s) <= s.len(),
    decreases s.len(),
{
    if s.len() > 0 {
        lemma_count_bound(s.drop_last());
    }
}

impl NodeRegistry {
    pub closed spec fn wf(&self) -> bool {
        ids_unique(self.nodes@)
    }

    /// The registered connections, in order of registration.
    pub closed spec fn entries(&self) -> Seq<NodeEntry> {
        self.nodes@
    }

    /// An empty registry.
    pub fn new() -> (r: NodeRegistry)
        ensures
            r.wf(),
            r.entries().len() == 0,
    {
        NodeRegistry { nodes: Vec::new() }
    }

    fn position(&self, id: &str) -> (r: Option<usize>)
        ensures
            r is None ==> forall|i: int| 0 <= i < self.entries().len() ==> (#[trigger] self.entries()[i]).id@ != id@,
            r matches Some(i) ==> i < self.entries().len() && self.entries()[i as int].id@ == id@,
    {
        let mut i: usize = 0;
        while i < self.nodes.len()
            invariant
                i <= self.nodes@.len(),
                forall|j: int| 0 <= j < i ==> (#[trigger] self.nodes@[j]).id@ != id@,
            decreases self.nodes@.len() - i,
        {
            if str_eq(self.nodes[i].id.as_str(), id) {
                return Some(i);
            }
            i += 1;
        }
        None
    }

    /// A new connection is accepted: it is registered with no job. An id
    /// already present is left as it is.
    pub fn register(&mut self, id: String)
        requires
            old(self).wf(),
        ensures
            final(self).wf(),
            (exists|i: int| 0 <= i < old(self).entries().len() && (#[trigger] old(self).entries()[i]).id@ == id@)
                ==> final(self).entries() == old(self).entries(),
            (forall|i: int| 0 <= i < old(self).entries().len() ==> (#[trigger] old(self).entries()[i]).id@ != id@)
                ==> final(self).entries().len() == old(self).entries().len() + 1
                && final(self).entries().drop_last() == old(self).entries()
                && final(self).entries().last().id@ == id@
                && final(self).entries().last().state == NodeState::Registered,
    {
        match self.position(id.as_str()) {
            Some(_) => {},
            None => {
                self.nodes.push(NodeEntry { id, state: NodeState::Registered });
                proof {
                    let s = self.nodes@;
                    let n = s.len() - 1;
                    assert forall|a: int, b: int| 0 <= a < s.len() && 0 <= b < s.len() && a != b implies #[trigger] s[a].id@ != #[trigger] s[b].id@ by {
                        if a == n {
                            assert(old(self).nodes@[b] == s[b]);
                        } else if b == n {
                            assert(old(self).nodes@[a] == s[a]);
                        } else {
                            assert(old(self).nodes@[a] == s[a]);
                            assert(old(self).nodes@[b] == s[b]);
                        }
                    }
                    assert(s.drop_last() =~= old(self).nodes@);
                }
            },
        }
    }

    /// The connection closed: its entry is removed, if present.
    pub fn remove(&mut self, id: &str)
        requires
            old(self).wf(),
        ensures
            final(self).wf(),
            forall|i: int| 0 <= i < final(self).entries().len() ==> (#[trigger] final(self).entries()[i]).id@ != id@,
            (exists|i: int| 0 <= i < old(self).entries().len() && (#[trigger] old(self).entries()[i]).id@ == id@)
                ==> final(self).entries().len() + 1 == old(self).entries().len(),
            (forall|i: int| 0 <= i < old(self).entries().len() ==> (#[trigger] old(self).entries()[i]).id@ != id@)
                ==> final(self).entries() == old(self).entries(),
            forall|e: NodeEntry| #[trigger] final(self).entries().contains(e) ==> old(self).entries().contains(e),
    {
        match self.position(id) {
            Some(i) => {
                let ghost s0 = self.nodes@;
                self.nodes.remove(i);
                proof {
                    let s = self.nodes@;
                    assert(s =~= s0.remove(i as int));
                    assert forall|a: int| 0 <= a < s.len() implies (#[trigger] s[a]).id@ != id@ by {
                        if a < i {
                            assert(s[a] == s0[a]);
                        } else {
                            assert(s[a] == s0[a + 1]);
                        }
                    }
                    assert forall|a: int, b: int| 0 <= a < s.len() && 0 <= b < s.len() && a != b implies #[trigger] s[a].id@ != #[trigger] s[b].id@ by {
                        let a0 = if a < i { a } else { a + 1 };
                        let b0 = if b < i { b } else { b + 1 };
                        assert(s[a] == s0[a0]);
                        assert(s[b] == s0[b0]);
                    }
                    assert forall|e: NodeEntry| #[trigger] s.contains(e) implies s0.contains(e) by {
                        let a = choose|a: int| 0 <= a < s.len() && s[a] == e;
                        if a < i {
                            assert(s0[a] == e);
                        } else {
                            assert(s0[a + 1] == e);
                        }
                    }
                }
            },
            None => {},
        }
    }

    /// The node reported `done`: it is idle again. Unknown ids change
    /// nothing.
    pub fn mark_done(&mut self, id: &str)
        requires
            old(self).wf(),
        ensures
            final(self).wf(),
            final(self).entries().len() == old(self).entries().len(),
            forall|i: int| 0 <= i < old(self).entries().len() ==> {
                &&& (#[trigger] final(self).entries()[i]).id@ == old(self).entries()[i].id@
                &&& final(self).entries()[i].state == if old(self).entries()[i].id@ == id@ {
                    NodeState::Idle
                } else {
                    old(self).entries()[i].state
                }
            },
    {
        match self.position(id) {
            Some(i) => {
                let eid = self.nodes[i].id.clone();
                self.nodes.set(i, NodeEntry { id: eid, state: NodeState::Idle });
                proof {
                    let s = self.nodes@;
                    let s0 = old(self).nodes@;
                    assert forall|a: int, b: int| 0 <= a < s.len() && 0 <= b < s.len() && a != b implies #[trigger] s[a].id@ != #[trigger] s[b].id@ by {
                        assert(s[a].id@ == s0[a].id@);
                        assert(s[b].id@ == s0[b].id@);
                    }
                    assert forall|a: int| 0 <= a < s0.len() && a != i implies s0[a].id@ != id@ by {
                        assert(s0[a].id@ != s0[i as int].id@);
                    }
                }
            },
            None => {},
        }
    }

    /// A job is dispatched to every registered node: all of them are now
    /// running it. The ids to send the job to are handed back, in order.
    pub fn dispatch_all(&mut self) -> (ids: Vec<String>)
        requires
            old(self).wf(),
        ensures
            final(self).wf(),
            all_set(old(self).entries(), final(self).entries(), NodeState::Bombarding),
            ids@.len() == old(self).entries().len(),
            forall|i: int| 0 <= i < ids@.len() ==> (#[trigger] ids@[i])@ == old(self).entries()[i].id@,
            count_bombarding(final(self).entries()) == old(self).entries().len(),
    {
        let mut ids: Vec<String> = Vec::new();
        let mut i: usize = 0;
        while i < self.nodes.len()
            invariant
                self.nodes@.len() == old(self).nodes@.len(),
                i <= self.nodes@.len(),
                ids@.len() == i,
                forall|j: int| 0 <= j < self.nodes@.len() ==> (#[trigger] self.nodes@[j]).id@ == old(self).nodes@[j].id@,
                forall|j: int| 0 <= j < i ==> (#[trigger] self.nodes@[j]).state == NodeState::Bombarding,
                forall|j: int| 0 <= j < i ==> (#[trigger] ids@[j])@ == old(self).nodes@[j].id@,
            decreases self.nodes@.len() - i,
        {
            let eid = self.nodes[i].id.clone();
            ids.push(self.nodes[i].id.clone());
            self.nodes.set(i, NodeEntry { id: eid, state: NodeState::Bombarding });
            i += 1;
        }
        proof {
            let s = self.nodes@;
            let s0 = old(self).nodes@;
            assert forall|a: int, b: int| 0 <= a < s.len() && 0 <= b < s.len() && a != b implies #[trigger] s[a].id@ != #[trigger] s[b].id@ by {
                assert(s[a].id@ == s0[a].id@);
                assert(s[b].id@ == s0[b].id@);
            }
            lemma_count_all(s, NodeState::Bombarding);
        }
        ids
    }

    /// The number of registered nodes.
    pub fn get_total_nodes(&self) -> (n: usize)
        ensures
            n as nat == self.entries().len(),
    {
        self.nodes.len()
    }

    /// The number of nodes running a job.
    pub fn get_currently_bombarding_nodes(&self) -> (n: usize)
        ensures
            n as nat == count_bombarding(self.entries()),
    {
        let mut n: usize = 0;
        let mut i: usize = 0;
        while i < self.nodes.len()
            invariant
                i <= self.nodes@.len(),
                n as nat == count_bombarding(self.nodes@.subrange(0, i as int)),
                n <= i,
            decreases self.nodes@.len() - i,
        {
            let ghost p = self.nodes@.subrange(0, i + 1);
            assert(p.drop_last() =~= self.nodes@.subrange(0, i as int));
            match self.nodes[i].state {
                NodeState::Bombarding => {
                    n = n + 1;
                },
                _ => {},
            }
            i += 1;
        }
        assert(self.nodes@.subrange(0, self.nodes@.len() as int) =~= self.nodes@);
        n
    }

    /// The counts the nodes endpoint answers with.
    pub fn nodes_response(&self) -> (r: NodesResponse)
        ensures
            r.available_nodes as nat == self.entries().len(),
            r.bombarding_nodes as nat == count_bombarding(self.entries()),
    {
        NodesResponse::new(self.get_total_nodes(), self.get_currently_bombarding_nodes())
    }

    /// Whether a new job may start: some node is registered and none is
    /// running a job. The refusals carry code 500.
    pub fn check_admission(&self) -> (r: Result<(), ErrorResponse>)
        ensures
            r is Ok <==> self.entries().len() > 0 && count_bombarding(self.entries()) == 0,
            r matches Err(e) ==> e.code == 500 && (self.entries().len() == 0
                ==> e.description@ == "No nodes available for execution"@) && (self.entries().len() > 0
                ==> e.description@ == "Bombarding in progress"@),
    {
        if self.get_total_nodes() == 0 {
            return Err(ErrorResponse::new(500, "No nodes available for execution"));
        }
        if self.get_currently_bombarding_nodes() > 0 {
            return Err(ErrorResponse::new(500, "Bombarding in progress"));
        }
        Ok(())
    }
}

/// Once a job is dispatched to a registry of `n` nodes, `n` of them are
/// running it; each `done` sets one back, and after every node has reported
/// `done`, none is running.
pub proof fn lemma_fan_out_counts(before: Seq<NodeEntry>, during: Seq<NodeEntry>, after: Seq<NodeEntry>)
    requires
        all_set(before, during, NodeState::Bombarding),
        during.len() == after.len(),
        forall|i: int| 0 <= i < after.len() ==> (#[trigger] after[i]).state == NodeState::Idle,
    ensures
        count_bombarding(during) == before.len(),
        count_bombarding(after) == 0,
{
    assert forall|i: int| 0 <= i < during.len() implies (#[trigger] during[i]).state == NodeState::Bombarding by {
        assert(during[i].id@ == before[i].id@);
    }
    lemma_count_all(during, NodeState::Bombarding);
    lemma_count_all(after, NodeState::Idle);
}

/// A text frame a node sends the hub.
#[derive(Clone, Copy, Debug, PartialEq, Eq, Structural)]
pub enum HubFrame {
    /// The node's run is complete.
    Done,
    /// A batch of statistics.
    StatsBatch,
}

/// Tells a `done` frame from a batch of statistics.
pub fn classify_frame(text: &str) -> (r: HubFrame)
    ensures
        (r == HubFrame::Done) <==> text@ == "done"@,
{
    if str_eq(text, "done") {
        HubFrame::Done
    } else {
        HubFrame::StatsBatch
    }
}

/// The stats of all batches of all nodes.
pub open spec fn total_stats(nodes: Seq<Seq<Seq<Stats>>>) -> nat
    decreases nodes.len(),
{
    if nodes.len() == 0 {
        0
    } else {
        total_stats(nodes.drop_last()) + flatten(nodes.last()).len()
    }
}

/// The hub writes one row per stat it receives. As the batches it receives
/// from each node are the first of those the node sent (the last ones may
/// be lost when a connection closes before they arrive), the hub never
/// writes more rows than all the nodes emitted.
pub proof fn lemma_hub_rows_bounded_all(sent: Seq<Seq<Seq<Stats>>>, received: Seq<Seq<Seq<Stats>>>)
    requires
        received.len() == sent.len(),
        forall|n: int| 0 <= n < sent.len() ==> (#[trigger] received[n]).len() <= sent[n].len(),
        forall|n: int, i: int| 0 <= n < sent.len() && 0 <= i < received[n].len() ==> #[trigger] received[n][i] == sent[n][i],
    ensures
        total_stats(received) <= total_stats(sent),
    decreases sent.len(),
{
    if sent.len() > 0 {
        let k = sent.len() - 1;
        let s0 = sent.drop_last();
        let r0 = received.drop_last();
        assert forall|n: int| 0 <= n < s0.len() implies (#[trigger] r0[n]).len() <= s0[n].len() by {
            assert(received[n].len() <= sent[n].len());
        }
        assert forall|n: int, i: int| 0 <= n < s0.len() && 0 <= i < r0[n].len() implies #[trigger] r0[n][i] == s0[n][i] by {
            assert(received[n][i] == sent[n][i]);
        }
        lemma_hub_rows_bounded_all(s0, r0);
        assert(received[k].len() <= sent[k].len());
        assert forall|i: int| 0 <= i < received[k].len() implies #[trigger] received[k][i] == sent[k][i] by {
            assert(received[k][i] == sent[k][i]);
        }
        lemma_hub_rows_bounded(sent[k], received[k]);
    }
}

proof fn lemma_hub_rows_bounded(sent: Seq<Seq<Stats>>, received: Seq<Seq<Stats>>)
    requires
        received.len() <= sent.len(),
        forall|i: int| 0 <= i < received.len() ==> #[trigger] received[i] == sent[i],
    ensures
        flatten(received).len() <= flatten(sent).len(),
    decreases sent.len(),
{
    if sent.len() > 0 {
        if received.len() == sent.len() {
            assert(received =~= sent);
        } else {
            let s0 = sent.drop_last();
            assert forall|i: int| 0 <= i < received.len() implies #[trigger] received[i] == s0[i] by {
                assert(received[i] == sent[i]);
            }
            lemma_hub_rows_bounded(s0, received);
        }
    }
}

/// A file part of a job submission, or a plain field.
#[derive(Clone, Debug)]
pub struct SubmittedPart {
    pub name: String,
    pub filename: Option<String>,
    pub content_type: Option<String>,
    pub content: String,
}

/// The texts of an accepted job submission.
#[derive(Clone, Debug)]
pub struct Submission {
    pub config: String,
    pub scenarios: String,
    pub environment: String,
    pub data_file: String,
}

/// What reading the parts so far has gathered.
pub struct Gathered {
    pub config_present: bool,
    pub scenarios_present: bool,
    pub config: Seq<char>,
    pub scenarios: Seq<char>,
    pub environment: Seq<char>,
    pub data_file: Seq<char>,
    pub errors: Seq<Seq<char>>,
}

/// A file part has the YAML content type.
pub open spec fn part_is_yaml(p: SubmittedPart) -> bool {
    p.content_type matches Some(ct) && ct@ == "text/yaml"@
}

/// The error text for a file part of the wrong type.
pub open spec fn wrong_type_text(filename: Seq<char>) -> Seq<char> {
    filename + " param should be of type text/yaml"@
}

/// What the parts gather, read in order: `config`, `scenarios` and
/// `environment` files must be YAML; a plain `data` field names the data
/// file; anything else is ignored.
pub open spec fn gather(parts: Seq<SubmittedPart>) -> Gathered
    decreases parts.len(),
{
    if parts.len() == 0 {
        Gathered {
            config_present: false,
            scenarios_present: false,
            config: Seq::empty(),
            scenarios: Seq::empty(),
            environment: Seq::empty(),
            data_file: Seq::empty(),
            errors: Seq::empty(),
        }
    } else {
        let g = gather(parts.drop_last());
        let p = parts.last();
        match p.filename {
            Some(f) => {
                if p.name@ == "config"@ {
                    if part_is_yaml(p) {
                        Gathered { config_present: true, config: p.content@, ..g }
                    } else {
                        Gathered { config_present: true, errors: g.errors.push(wrong_type_text(f@)), ..g }
                    }
                } else if p.name@ == "scenarios"@ {
                    if part_is_yaml(p) {
                        Gathered { scenarios_present: true, scenarios: p.content@, ..g }
                    } else {
                        Gathered { scenarios_present: true, errors: g.errors.push(wrong_type_text(f@)), ..g }
                    }
                } else if p.name@ == "environment"@ {
                    if part_is_yaml(p) {
                        Gathered { environment: p.content@, ..g }
                    } else {
                        Gathered { errors: g.errors.push(wrong_type_text(f@)), ..g }
                    }
                } else {
                    g
                }
            },
            None => {
                if p.name@ == "data"@ {
                    Gathered { data_file: p.content@, ..g }
                } else {
                    g
                }
            },
        }
    }
}

/// The errors of a submission: those of its parts, then one if the config
/// or the scenarios file is missing.
pub open spec fn submission_errors(parts: Seq<SubmittedPart>) -> Seq<Seq<char>> {
    let g = gather(parts);
    if !g.config_present || !g.scenarios_present {
        g.errors.push("config and scenarios file parameters are mandatory"@)
    } else {
        g.errors
    }
}

fn is_yaml_part(p: &SubmittedPart) -> (r: bool)
    ensures
        r == part_is_yaml(*p),
{
    match &p.content_type {
        Some(ct) => str_eq(ct.as_str(), ContentType::Yml.as_str()),
        None => false,
    }
}

fn wrong_type(filename: &String) -> (r: String)
    ensures
        r@ == wrong_type_text(filename@),
{
    let mut v = chars_of(filename.as_str());
    let t = chars_of(" param should be of type text/yaml");
    append_chars(&mut v, &t);
    string_of(&v)
}

/// Reads the parts of a job submission. `Ok` with the gathered texts when
/// no part is of the wrong type and both the config and the scenarios files
/// are present; otherwise every error, in order, each with code 400.
pub fn collect_submission(parts: &Vec<SubmittedPart>) -> (r: Result<Submission, Vec<ErrorResponse>>)
    ensures
        r is Ok <==> submission_errors(parts@).len() == 0,
        r matches Ok(s) ==> s.config@ == gather(parts@).config && s.scenarios@ == gather(parts@).scenarios
            && s.environment@ == gather(parts@).environment && s.data_file@ == gather(parts@).data_file,
        r matches Err(es) ==> es@.len() == submission_errors(parts@).len() && forall|i: int|
            0 <= i < es@.len() ==> (#[trigger] es@[i]).code == 400 && es@[i].description@ == submission_errors(parts@)[i],
{
    let mut config_present = false;
    let mut scenarios_present = false;
    let mut config = String::new();
    let mut scenarios = String::new();
    let mut environment = String::new();
    let mut data_file = String::new();
    let mut errors: Vec<ErrorResponse> = Vec::new();
    let mut i: usize = 0;
    while i < parts.len()
        invariant
            i <= parts@.len(),
            ({
                let g = gather(parts@.subrange(0, i as int));
                &&& g.config_present == config_present
                &&& g.scenarios_present == scenarios_present
                &&& g.config == config@
                &&& g.scenarios == scenarios@
                &&& g.environment == environment@
                &&& g.data_file == data_file@
                &&& g.errors.len() == errors@.len()
                &&& forall|j: int| 0 <= j < errors@.len() ==> (#[trigger] errors@[j]).code == 400 && errors@[j].description@ == g.errors[j]
            }),
        decreases parts@.len() - i,
    {
        let ghost pre = parts@.subrange(0, i + 1);
        assert(pre.drop_last() =~= parts@.subrange(0, i as int));
        let p = &parts[i];
        match &p.filename {
            Some(f) => {
                if str_eq(p.name.as_str(), "config") {
                    config_present = true;
                    if is_yaml_part(p) {
                        config = p.content.clone();
                    } else {
                        errors.push(ErrorResponse { code: 400, description: wrong_type(f) });
                    }
                } else if str_eq(p.name.as_str(), "scenarios") {
                    scenarios_present = true;
                    if is_yaml_part(p) {
                        scenarios = p.content.clone();
                    } else {
                        errors.push(ErrorResponse { code: 400, description: wrong_type(f) });
                    }
                } else if str_eq(p.name.as_str(), "environment") {
                    if is_yaml_part(p) {
                        environment = p.content.clone();
                    } else {
                        errors.push(ErrorResponse { code: 400, description: wrong_type(f) });
                    }
                }
            },
            None => {
                if str_eq(p.name.as_str(), "data") {
                    data_file = p.content.clone();
                }
            },
        }
        i += 1;
    }
    assert(parts@.subrange(0, parts@.len() as int) =~= parts@);
    if !config_present || !scenarios_present {
        errors.push(ErrorResponse::new(400, "config and scenarios file parameters are mandatory"));
    }
    if errors.len() > 0 {
        return Err(errors);
    }
    Ok(Submission { config, scenarios, environment, data_file })
}

/// A job as the hub hands it to its nodes: the configuration, the seed
/// environment and the prepared templates.
pub struct BombardMessage {
    pub config: Config,
    pub env_map: VarStore,
    pub requests: Vec<Request>,
}

/// What reaches a node on its socket.
#[derive(Clone, Copy, Debug, PartialEq, Eq, Structural)]
pub enum NodeEvent {
    /// A text frame holding a job.
    JobFrame,
    /// A text frame that is not a job.
    BadFrame,
    /// The hub closed the connection.
    CloseFrame,
    /// Any other frame.
    OtherFrame,
    /// The node's run finished and its pipeline drained.
    RunComplete,
}

/// What a node does on an event.
#[derive(Clone, Copy, Debug, PartialEq, Eq, Structural)]
pub enum NodeAction {
    /// Start the run of the job.
    StartRun,
    /// Refuse the job: a run is in progress.
    RejectBusy,
    /// Close the connection after an unreadable frame.
    CloseConnection,
    /// Stop serving.
    Exit,
    /// Do nothing.
    Ignore,
}

/// A node's session with the hub: at most one job runs at a time.
pub struct NodeSession {
    pub running: bool,
}

impl NodeSession {
    pub fn new() -> (r: NodeSession)
        ensures
            !r.running,
    {
        NodeSession { running: false }
    }

    /// The node's decision on an event, and its new state.
    pub fn handle(&mut self, event: NodeEvent) -> (a: NodeAction)
        ensures
            a == match event {
                NodeEvent::JobFrame => if old(self).running { NodeAction::RejectBusy } else { NodeAction::StartRun },
                NodeEvent::BadFrame => NodeAction::CloseConnection,
                NodeEvent::CloseFrame => NodeAction::Exit,
                NodeEvent::OtherFrame => NodeAction::Ignore,
                NodeEvent::RunComplete => NodeAction::Ignore,
            },
            final(self).running == match event {
                NodeEvent::JobFrame => true,
                NodeEvent::BadFrame => false,
                NodeEvent::RunComplete => false,
                _ => old(self).running,
            },
    {
        match event {
            NodeEvent::JobFrame => {
                if self.running {
                    NodeAction::RejectBusy
                } else {
                    self.running = true;
                    NodeAction::StartRun
                }
            },
            NodeEvent::BadFrame => {
                self.running = false;
                NodeAction::CloseConnection
            },
            NodeEvent::CloseFrame => NodeAction::Exit,
            NodeEvent::OtherFrame => NodeAction::Ignore,
            NodeEvent::RunComplete => {
                self.running = false;
                NodeAction::Ignore
            },
        }
    }
}

/// The address a node connects to for a hub at `host:port`.
pub fn hub_socket_url(hub_address: &str) -> (r: String)
    ensures
        r@ == "ws://"@ + hub_address@ + "/ws"@,
{
    let mut v = chars_of("ws://");
    let a = chars_of(hub_address);
    append_chars(&mut v, &a);
    let t = chars_of("/ws");
    append_chars(&mut v, &t);
    string_of(&v)
}

} // verus!
