use vstd::prelude::*;

use crate::model::{Config, Database, KeyValue};
use crate::text::{append_chars, chars_of, decimal, push_decimal, string_of};

verus! {

/// One request outcome.
#[derive(Clone, Debug)]
pub struct Stats {
    pub timestamp: String,
    pub thread_count: u16,
    pub status: u16,
    pub latency: u32,
    pub name: String,
}

/// Relies on `chrono::Local::now` and `DateTime::to_rfc3339`: the current
/// time as RFC 3339 text with its offset. Nothing is promised of its value.
#[verifier::external_body]
fn now_timestamp() -> (r: String) {
    chrono::Local::now().to_rfc3339()
}

impl Stats {
    /// The outcome of a request that just completed, stamped with the
    /// current time.
    pub fn new(name: &str, status: u16, latency: u32, thread_count: u16) -> (r: Stats)
        ensures
            r.name@ == name@,
            r.status == status,
            r.latency == latency,
            r.thread_count == thread_count,
    {
        Stats {
            timestamp: now_timestamp(),
            name: String::from_str(name),
            status,
            latency,
            thread_count,
        }
    }

    /// A copy with the same fields.
    pub fn duplicate(&self) -> (r: Stats)
        ensures
            same_stat(r, *self),
    {
        Stats {
            timestamp: self.timestamp.clone(),
            thread_count: self.thread_count,
            status: self.status,
            latency: self.latency,
            name: self.name.clone(),
        }
    }

    /// The report row of this outcome.
    pub fn to_row(&self) -> (r: String)
        ensures
            r@ == csv_row(*self),
    {
        csv_line(self)
    }
}

/// Two outcomes with equal fields.
pub open spec fn same_stat(a: Stats, b: Stats) -> bool {
    a.timestamp@ == b.timestamp@ && a.thread_count == b.thread_count && a.status == b.status
        && a.latency == b.latency && a.name@ == b.name@
}

/// The width the name column is padded to.
pub const NAME_WIDTH: usize = 35;

/// `n` spaces.
pub open spec fn spaces(n: int) -> Seq<char>
    decreases n,
{
    if n <= 0 {
        Seq::empty()
    } else {
        spaces(n - 1).push(' ')
    }
}

/// `s` padded with spaces on the right to at least `w` characters.
pub open spec fn pad_right(s: Seq<char>, w: int) -> Seq<char> {
    s + spaces(w - s.len())
}

/// The separator between report columns.
pub open spec fn sep() -> Seq<char> {
    seq![',', ' ']
}

/// The report row of a stat: timestamp, thread count, status, latency and
/// the name padded to the column width, comma separated, newline ended.
pub open spec fn csv_row(s: Stats) -> Seq<char> {
    s.timestamp@ + sep() + decimal(s.thread_count as nat) + sep() + decimal(s.status as nat) + sep()
        + decimal(s.latency as nat) + sep() + pad_right(s.name@, NAME_WIDTH as int) + seq!['\n']
}

fn push_sep(out: &mut Vec<char>)
    ensures
        final(out)@ == old(out)@ + sep(),
{
    out.push(',');
    out.push(' ');
    assert(final(out)@ =~= old(out)@ + sep());
}

fn push_padded(out: &mut Vec<char>, s: &Vec<char>, w: usize)
    ensures
        final(out)@ == old(out)@ + pad_right(s@, w as int),
{
    append_chars(out, s);
    let pad: usize = if s.len() < w { w - s.len() } else { 0 };
    let mut k: usize = 0;
    while k < pad
        invariant
            k <= pad,
            out@ == old(out)@ + s@ + spaces(k as int),
        decreases pad - k,
    {
        out.push(' ');
        k += 1;
        assert(out@ =~= old(out)@ + s@ + spaces(k as int));
    }
    assert(spaces(pad as int) == spaces(w - s@.len())) by {
        if s@.len() >= w {
            assert(spaces(w - s@.len()) =~= Seq::<char>::empty());
            assert(spaces(0) =~= Seq::<char>::empty());
        }
    }
    assert(out@ =~= old(out)@ + pad_right(s@, w as int));
}

fn csv_line(s: &Stats) -> (r: String)
    ensures
        r@ == csv_row(*s),
{
    let mut out = chars_of(s.timestamp.as_str());
    push_sep(&mut out);
    push_decimal(&mut out, s.thread_count as u64);
    push_sep(&mut out);
    push_decimal(&mut out, s.status as u64);
    push_sep(&mut out);
    push_decimal(&mut out, s.latency as u64);
    push_sep(&mut out);
    let name = chars_of(s.name.as_str());
    push_padded(&mut out, &name, NAME_WIDTH);
    out.push('\n');
    assert(out@ =~= csv_row(*s));
    string_of(&out)
}

/// The header row of a report.
pub fn csv_header() -> (r: String)
    ensures
        r@ == "timestamp, thread_count, status, latency, name\n"@,
{
    String::from_str("timestamp, thread_count, status, latency, name\n")
}

/// The rows of a report for `stats`, in order.
pub open spec fn csv_rows(stats: Seq<Stats>) -> Seq<char>
    decreases stats.len(),
{
    if stats.len() == 0 {
        Seq::empty()
    } else {
        csv_rows(stats.drop_last()) + csv_row(stats.last())
    }
}

/// The report text for a batch: one row per stat, in order.
pub fn csv_text(stats: &Vec<Stats>) -> (r: String)
    ensures
        r@ == csv_rows(stats@),
{
    let mut out: Vec<char> = Vec::new();
    let mut i: usize = 0;
    while i < stats.len()
        invariant
            i <= stats@.len(),
            out@ == csv_rows(stats@.subrange(0, i as int)),
        decreases stats@.len() - i,
    {
        let row = chars_of(csv_line(&stats[i]).as_str());
        append_chars(&mut out, &row);
        let ghost p = stats@.subrange(0, i + 1);
        assert(p.drop_last() =~= stats@.subrange(0, i as int));
        i += 1;
    }
    assert(stats@.subrange(0, stats@.len() as int) =~= stats@);
    string_of(&out)
}

/// The milliseconds since the epoch that `chrono::DateTime::parse_from_rfc3339`
/// reads from an RFC 3339 timestamp, or none when it refuses the text.
pub uninterp spec fn millis_of(ts: Seq<char>) -> Option<i64>;

/// Relies on `chrono::DateTime::parse_from_rfc3339` and `timestamp_millis`.
#[verifier::external_body]
pub(crate) fn timestamp_millis(ts: &str) -> (r: Option<i64>)
    ensures
        r == millis_of(ts@),
{
    chrono::DateTime::parse_from_rfc3339(ts).ok().map(|d| d.timestamp_millis())
}

/// The decimal rendering of a signed number.
pub open spec fn signed_decimal(n: int) -> Seq<char> {
    if n < 0 {
        seq!['-'] + decimal((-n) as nat)
    } else {
        decimal(n as nat)
    }
}

/// The line-protocol point of a stat at `ms` milliseconds.
pub open spec fn influx_line(s: Stats, ms: int) -> Seq<char> {
    "stats,request="@ + s.name@ + " latency="@ + decimal(s.latency as nat) + ",status="@
        + decimal(s.status as nat) + seq![' '] + signed_decimal(ms) + seq!['\n']
}

/// The line-protocol body for `stats`: one point per stat whose timestamp
/// can be read, in order.
pub open spec fn influx_text(stats: Seq<Stats>) -> Seq<char>
    decreases stats.len(),
{
    if stats.len() == 0 {
        Seq::empty()
    } else {
        influx_text(stats.drop_last()) + match millis_of(stats.last().timestamp@) {
            Some(ms) => influx_line(stats.last(), ms as int),
            None => Seq::empty(),
        }
    }
}

fn push_literal(out: &mut Vec<char>, lit: &str)
    ensures
        final(out)@ == old(out)@ + lit@,
{
    let v = chars_of(lit);
    append_chars(out, &v);
}

fn push_signed(out: &mut Vec<char>, n: i64)
    ensures
        final(out)@ == old(out)@ + signed_decimal(n as int),
{
    if n < 0 {
        out.push('-');
        let m: u64 = if n == i64::MIN { 9223372036854775808u64 } else { (-n) as u64 };
        push_decimal(out, m);
        assert(final(out)@ =~= old(out)@ + signed_decimal(n as int));
    } else {
        push_decimal(out, n as u64);
    }
}

/// The line-protocol point of one stat.
pub fn influx_point(s: &Stats, ms: i64) -> (r: String)
    ensures
        r@ == influx_line(*s, ms as int),
{
    let mut out: Vec<char> = Vec::new();
    push_literal(&mut out, "stats,request=");
    push_literal(&mut out, s.name.as_str());
    push_literal(&mut out, " latency=");
    push_decimal(&mut out, s.latency as u64);
    push_literal(&mut out, ",status=");
    push_decimal(&mut out, s.status as u64);
    out.push(' ');
    push_signed(&mut out, ms);
    out.push('\n');
    assert(out@ =~= influx_line(*s, ms as int));
    string_of(&out)
}

/// The body written to the time-series database for a batch.
pub fn influx_body(stats: &Vec<Stats>) -> (r: String)
    ensures
        r@ == influx_text(stats@),
{
    let mut out: Vec<char> = Vec::new();
    let mut i: usize = 0;
    while i < stats.len()
        invariant
            i <= stats@.len(),
            out@ == influx_text(stats@.subrange(0, i as int)),
        decreases stats@.len() - i,
    {
        let ghost p = stats@.subrange(0, i + 1);
        assert(p.drop_last() =~= stats@.subrange(0, i as int));
        match timestamp_millis(stats[i].timestamp.as_str()) {
            Some(ms) => {
                let line = chars_of(influx_point(&stats[i], ms).as_str());
                append_chars(&mut out, &line);
            },
            None => {},
        }
        i += 1;
    }
    assert(stats@.subrange(0, stats@.len() as int) =~= stats@);
    string_of(&out)
}

/// What `base64::encode` gives for the UTF-8 bytes of a text (standard
/// alphabet, with padding).
pub uninterp spec fn base64_of(s: Seq<char>) -> Seq<char>;

/// Relies on `base64::encode`: the standard, padded encoding of the bytes.
#[verifier::external_body]
fn encode_base64(s: &str) -> (r: String)
    ensures
        r@ == base64_of(s@),
{
    base64::encode(s)
}

/// The value of a Basic authorization header for a user and password.
pub open spec fn basic_auth(user: Seq<char>, password: Seq<char>) -> Seq<char> {
    "Basic "@ + base64_of(user + seq![':'] + password)
}

/// The base64 encoding of `user:password`.
pub fn encoded_credentials(user: &str, password: &str) -> (r: String)
    ensures
        r@ == base64_of(user@ + seq![':'] + password@),
{
    let mut cred = chars_of(user);
    cred.push(':');
    let p = chars_of(password);
    append_chars(&mut cred, &p);
    assert(cred@ =~= user@ + seq![':'] + password@);
    encode_base64(string_of(&cred).as_str())
}

/// Builds the Basic authorization header value for a user and password.
pub fn basic_auth_header(user: &str, password: &str) -> (r: String)
    ensures
        r@ == basic_auth(user@, password@),
{
    let encoded = encoded_credentials(user, password);
    let mut out: Vec<char> = Vec::new();
    push_literal(&mut out, "Basic ");
    push_literal(&mut out, encoded.as_str());
    assert(out@ =~= basic_auth(user@, password@));
    string_of(&out)
}

/// Where and how statistics are posted to an InfluxDB database.
#[derive(Clone, Debug)]
pub struct InfluxTarget {
    pub url: String,
    pub headers: Vec<KeyValue>,
}

/// The database kind in lower case is `influxdb`.
pub open spec fn is_influx(kind: Seq<char>) -> bool {
    kind.len() == 8 && forall|i: int| 0 <= i < 8 ==> crate::extract::lower_char(#[trigger] kind[i]) == "influxdb"@[i]
}

/// The write endpoint of a database.
pub open spec fn influx_url(db: Database) -> Seq<char> {
    db.url@ + "/write?db="@ + db.name@ + "&precision=ms"@
}

/// The headers of a write: the content type, then Basic authorization
/// when a user is set.
pub open spec fn influx_headers_ok(h: Seq<KeyValue>, db: Database) -> bool {
    &&& h.len() == if db.user@.len() == 0 { 1int } else { 2int }
    &&& h[0].key@ == "content-type"@
    &&& h[0].value@ == "application/octet-stream"@
    &&& db.user@.len() > 0 ==> h[1].key@ == "authorization"@ && h[1].value@ == basic_auth(db.user@, db.password@)
}

/// The database writer a configuration asks for: only `influxdb` (in any
/// case) with a url is known; no kind, an unknown kind or no url give none.
pub fn get_db_writer(db: &Database) -> (r: Option<InfluxTarget>)
    ensures
        r is Some <==> is_influx(db.db_type@) && db.url@.len() > 0,
        r matches Some(t) ==> t.url@ == influx_url(*db) && influx_headers_ok(t.headers@, *db),
{
    let kind = chars_of(db.db_type.as_str());
    let target = chars_of("influxdb");
    proof {
        reveal_strlit("influxdb");
    }
    assert("influxdb"@.len() == 8);
    let mut ok = kind.len() == 8;
    if ok {
        let mut i: usize = 0;
        while i < 8
            invariant
                kind@.len() == 8,
                target@ == "influxdb"@,
                "influxdb"@.len() == 8,
                kind@ == db.db_type@,
                i <= 8,
                ok == forall|j: int| 0 <= j < i ==> crate::extract::lower_char(#[trigger] kind@[j]) == "influxdb"@[j],
            decreases 8 - i,
        {
            if lower(kind[i]) != target[i] {
                ok = false;
            }
            i += 1;
        }
    }
    if !ok || db.url.as_str().is_empty() {
        return None;
    }
    let mut url: Vec<char> = Vec::new();
    push_literal(&mut url, db.url.as_str());
    push_literal(&mut url, "/write?db=");
    push_literal(&mut url, db.name.as_str());
    push_literal(&mut url, "&precision=ms");
    let mut headers: Vec<KeyValue> = Vec::new();
    headers.push(KeyValue {
        key: String::from_str("content-type"),
        value: String::from_str("application/octet-stream"),
    });
    if !db.user.as_str().is_empty() {
        headers.push(KeyValue {
            key: String::from_str("authorization"),
            value: basic_auth_header(db.user.as_str(), db.password.as_str()),
        });
    }
    Some(InfluxTarget { url: string_of(&url), headers })
}

fn lower(c: char) -> (r: char)
    ensures
        r == crate::extract::lower_char(c),
{
    if c >= 'A' && c <= 'Z' {
        ((c as u8) + 32) as char
    } else {
        c
    }
}

/// The report file used when none is configured.
pub fn default_report_file() -> (r: String)
    ensures
        r@ == "report.csv"@,
{
    String::from_str("report.csv")
}

/// The report file of a configuration: the configured one, else the default.
pub fn report_file_of(config: &Config) -> (r: String)
    ensures
        config.report_file@.len() == 0 ==> r@ == "report.csv"@,
        config.report_file@.len() > 0 ==> r@ == config.report_file@,
{
    if config.report_file.as_str().is_empty() {
        default_report_file()
    } else {
        config.report_file.clone()
    }
}

/// Where the statistics of a run go.
#[derive(Clone, Copy, Debug, PartialEq, Eq, Structural)]
pub struct SinkPlan {
    /// Rows appended to the report file.
    pub csv: bool,
    /// Points written to the database.
    pub db: bool,
    /// Batches sent up the hub socket.
    pub socket: bool,
}

/// The sinks of a run: the report file unless distributed, the socket when
/// distributed, the database when one is configured.
pub fn sink_plan(config: &Config) -> (r: SinkPlan)
    ensures
        r.csv == !config.distributed,
        r.socket == config.distributed,
        r.db == (is_influx(config.database.db_type@) && config.database.url@.len() > 0),
{
    let db = match get_db_writer(&config.database) {
        Some(_) => true,
        None => false,
    };
    SinkPlan { csv: !config.distributed, db, socket: config.distributed }
}

/// The number of buffered stats at which the pipeline writes them out.
pub const BATCH_SIZE: usize = 50;

/// The text frame a node sends up when its run is complete.
pub fn done_message() -> (r: String)
    ensures
        r@ == "done"@,
{
    String::from_str("done")
}

/// The buffer of the statistics consumer: batches from workers pile up
/// until at least `BATCH_SIZE` stats are held, then all of them go out.
pub struct StatsBuffer {
    pending: Vec<Stats>,
}

impl StatsBuffer {
    /// The stats held, in arrival order.
    pub closed spec fn held(&self) -> Seq<Stats> {
        self.pending@
    }

    /// An empty buffer.
    pub fn new() -> (r: StatsBuffer)
        ensures
            r.held() == Seq::<Stats>::empty(),
    {
        StatsBuffer { pending: Vec::new() }
    }

    /// The number of stats held.
    pub fn len(&self) -> (n: usize)
        ensures
            n as nat == self.held().len(),
    {
        self.pending.len()
    }

    /// Adds a worker's batch. When the buffer then holds at least
    /// `BATCH_SIZE` stats, all of them are handed back to be written and the
    /// buffer is emptied; otherwise nothing is handed back. No stat is lost,
    /// duplicated or reordered.
    pub fn push_batch(&mut self, batch: Vec<Stats>) -> (out: Option<Vec<Stats>>)
        ensures
            old(self).held() + batch@ == match out {
                Some(v) => v@ + final(self).held(),
                None => final(self).held(),
            },
            (old(self).held().len() + batch@.len() >= BATCH_SIZE) <==> out is Some,
            out is Some ==> final(self).held().len() == 0,
    {
        let mut batch = batch;
        let ghost b = batch@;
        self.pending.append(&mut batch);
        if self.pending.len() >= BATCH_SIZE {
            let mut full: Vec<Stats> = Vec::new();
            full.append(&mut self.pending);
            assert(full@ + self.pending@ =~= full@);
            Some(full)
        } else {
            None
        }
    }

    /// Hands back everything held, emptying the buffer (on shutdown).
    pub fn drain(&mut self) -> (out: Vec<Stats>)
        ensures
            out@ == old(self).held(),
            final(self).held().len() == 0,
    {
        let mut out: Vec<Stats> = Vec::new();
        out.append(&mut self.pending);
        assert(out@ =~= old(self).held());
        out
    }
}

/// All the stats of a sequence of batches, in order.
pub open spec fn flatten(batches: Seq<Seq<Stats>>) -> Seq<Stats>
    decreases batches.len(),
{
    if batches.len() == 0 {
        Seq::empty()
    } else {
        flatten(batches.drop_last()) + batches.last()
    }
}

/// What one `push_batch` does: buffer `h0` with `batch` becomes written
/// `w` and buffer `h1`.
pub open spec fn pipeline_step(h0: Seq<Stats>, batch: Seq<Stats>, w: Seq<Stats>, h1: Seq<Stats>) -> bool {
    h0 + batch == w + h1
}

/// Whatever the batch sizes, the consumer writes out exactly the stats the
/// workers sent, in order: after any number of batches, what was written
/// followed by what is still held is every stat sent. Draining at the end
/// then writes one row per stat sent.
pub proof fn lemma_rows_conserved(
    batches: Seq<Seq<Stats>>,
    written: Seq<Seq<Stats>>,
    held: Seq<Seq<Stats>>,
)
    requires
        written.len() == batches.len(),
        held.len() == batches.len() + 1,
        held[0].len() == 0,
        forall|i: int| 0 <= i < batches.len() ==> pipeline_step(held[i], #[trigger] batches[i], written[i], held[i + 1]),
    ensures
        flatten(written) + held.last() == flatten(batches),
        flatten(written).len() + held.last().len() == flatten(batches).len(),
    decreases batches.len(),
{
    if batches.len() == 0 {
        assert(held.last() =~= Seq::<Stats>::empty());
        assert(flatten(written) + held.last() =~= Seq::<Stats>::empty());
    } else {
        let n = batches.len() - 1;
        let b0 = batches.drop_last();
        let w0 = written.drop_last();
        let h0 = held.drop_last();
        assert forall|i: int| 0 <= i < b0.len() implies pipeline_step(h0[i], #[trigger] b0[i], w0[i], h0[i + 1]) by {
            assert(pipeline_step(held[i], batches[i], written[i], held[i + 1]));
        }
        lemma_rows_conserved(b0, w0, h0);
        assert(pipeline_step(held[n], batches[n], written[n], held[n + 1]));
        assert(h0.last() == held[n]);
        assert(written.last() == written[n]);
        assert(batches.last() == batches[n]);
        assert(flatten(written) == flatten(w0) + written[n]);
        assert(flatten(batches) == flatten(b0) + batches[n]);
        assert(flatten(b0) + batches[n] =~= flatten(w0) + (held[n] + batches[n]));
        assert(flatten(w0) + (written[n] + held[n + 1]) =~= flatten(written) + held.last());
    }
}

} // verus!
