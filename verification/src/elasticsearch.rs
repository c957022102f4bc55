//! Metrics on their way to a search index: labelled, gathered and sent in batches.
use crate::clock::{date_label, dotted_date, elapsed_seconds, seconds_between, utc_now, Timestamp};
use crate::config::ElasticsearchConfig;
use crate::models::RateSample;
use crate::text::{cat2, cat3, signed_decimal, signed_decimal_text};
use vstd::prelude::*;
use vstd::string::*;

verus! {

broadcast use vstd::string::group_string_axioms;

/// What a document is about: one stream, or the server as a whole.
#[derive(Debug, Clone, PartialEq)]
pub enum MetricsSubject {
    Stream { stream_name: String },
    Server {
        active_streams: usize,
        cache_memory_bytes: u64,
        cache_entries: usize,
        stream_viewers: Vec<(String, usize)>,
    },
}

/// What was served in some time up to `timestamp`, and to how many viewers.
#[derive(Debug, Clone, PartialEq)]
pub struct MetricsDocument {
    pub timestamp: Timestamp,
    pub server_name: String,
    pub viewers: usize,
    pub rates: RateSample,
    pub subject: MetricsSubject,
}

impl MetricsDocument {
    /// The document under the name of a server.
    pub open spec fn labelled(self, server_name: String) -> MetricsDocument {
        MetricsDocument { server_name, ..self }
    }
}

/// A field of the index and the type of its values.
#[derive(Debug, Clone, PartialEq)]
pub struct FieldMapping {
    pub name: String,
    pub kind: String,
    /// For a field of objects: whether what they hold is indexed.
    pub enabled: Option<bool>,
}

/// How indices for the metrics are set up.
#[derive(Debug, Clone, PartialEq)]
pub struct IndexTemplate {
    pub name: String,
    pub index_pattern: String,
    pub number_of_shards: u32,
    pub number_of_replicas: u32,
    pub refresh_interval: String,
    pub properties: Vec<FieldMapping>,
}

/// The names, types and switches of a list of fields.
pub open spec fn mappings(fields: Seq<FieldMapping>) -> Seq<(Seq<char>, Seq<char>, Option<bool>)> {
    fields.map_values(|f: FieldMapping| (f.name@, f.kind@, f.enabled))
}

/// The fields of the index.
pub open spec fn metric_fields() -> Seq<(Seq<char>, Seq<char>, Option<bool>)> {
    seq![
        ("@timestamp"@, "date"@, None),
        ("server_name"@, "keyword"@, None),
        ("bytes_per_second"@, "double"@, None),
        ("requests_per_second"@, "double"@, None),
        ("segments_per_second"@, "double"@, None),
        ("viewers"@, "long"@, None),
        ("active_streams"@, "long"@, None),
        ("cache_hit_rate"@, "double"@, None),
        ("cache_memory_mb"@, "double"@, None),
        ("cache_entries"@, "long"@, None),
        ("mbps"@, "double"@, None),
        ("stream_viewers"@, "object"@, Some(true)),
    ]
}

/// The name of a server that was given none: it tells when the server started.
pub open spec fn default_server_name(now: Timestamp) -> Seq<char> {
    "cascade-"@ + signed_decimal(now.second())
}

/// The address of the search service: what the settings say, or one on this machine.
pub open spec fn service_url(config: ElasticsearchConfig) -> Seq<char> {
    match config.url {
        Some(url) => url@,
        None => "http://localhost:9200"@,
    }
}

/// A batch is to be sent: enough documents have come, or enough time has passed.
pub open spec fn flush_due(
    count: nat,
    batch_size: usize,
    last_flush: Timestamp,
    interval: u64,
    now: Timestamp,
) -> bool {
    count >= batch_size || seconds_between(now, last_flush) >= interval as i64
}

/// The settings, and the documents that wait to be sent.
pub struct ClientView {
    pub enabled: bool,
    pub index_prefix: Seq<char>,
    pub batch_size: usize,
    pub flush_interval_seconds: u64,
    pub server_name: String,
    pub waiting: Seq<MetricsDocument>,
    pub last_flush: Timestamp,
}

impl ClientView {
    /// What a new document makes of the client. Without a search service it is dropped.
    pub open spec fn indexed(self, doc: MetricsDocument, now: Timestamp) -> ClientView {
        let waiting = self.waiting.push(doc.labelled(self.server_name));
        if !self.enabled {
            self
        } else if flush_due(
            waiting.len(),
            self.batch_size,
            self.last_flush,
            self.flush_interval_seconds,
            now,
        ) {
            ClientView { waiting: Seq::empty(), last_flush: now, ..self }
        } else {
            ClientView { waiting, ..self }
        }
    }

    /// The documents that are sent when a new one comes: all that wait, and that one, if
    /// a batch is due.
    pub open spec fn sent_on(self, doc: MetricsDocument, now: Timestamp) -> Seq<MetricsDocument> {
        let waiting = self.waiting.push(doc.labelled(self.server_name));
        if self.enabled && flush_due(
            waiting.len(),
            self.batch_size,
            self.last_flush,
            self.flush_interval_seconds,
            now,
        ) {
            waiting
        } else {
            Seq::empty()
        }
    }

    /// What is left when everything that waits is sent.
    pub open spec fn flushed(self, now: Timestamp) -> ClientView {
        if self.enabled {
            ClientView { waiting: Seq::empty(), last_flush: now, ..self }
        } else {
            self
        }
    }

    /// The documents that are sent when everything that waits is sent.
    pub open spec fn sent_on_flush(self) -> Seq<MetricsDocument> {
        if self.enabled {
            self.waiting
        } else {
            Seq::empty()
        }
    }
}

/// Gathers metrics for the search service.
#[derive(Debug)]
pub struct ElasticsearchClient {
    enabled: bool,
    index_prefix: String,
    batch_size: usize,
    flush_interval_seconds: u64,
    buffer: Vec<MetricsDocument>,
    last_flush: Timestamp,
    server_name: String,
}

impl ElasticsearchClient {
    pub closed spec fn view(&self) -> ClientView {
        ClientView {
            enabled: self.enabled,
            index_prefix: self.index_prefix@,
            batch_size: self.batch_size,
            flush_interval_seconds: self.flush_interval_seconds,
            server_name: self.server_name,
            waiting: self.buffer@,
            last_flush: self.last_flush,
        }
    }

    /// The client follows the settings, with nothing waiting since `now`.
    pub open spec fn follows(self, config: ElasticsearchConfig, now: Timestamp) -> bool {
        &&& self@.enabled == config.enabled
        &&& self@.index_prefix == config.index_prefix@
        &&& self@.batch_size == config.batch_size
        &&& self@.flush_interval_seconds == config.flush_interval_seconds
        &&& self@.server_name@ == (match config.server_name {
            Some(name) => name@,
            None => default_server_name(now),
        })
        &&& self@.waiting == Seq::<MetricsDocument>::empty()
        &&& self@.last_flush == now
    }

    /// A client that starts now.
    pub fn new(config: &ElasticsearchConfig) -> (r: Self)
        ensures
            exists|now: Timestamp| #[trigger] r.follows(*config, now),
    {
        Self::starting_at(config, utc_now())
    }

    /// A client that starts at `now`.
    pub fn starting_at(config: &ElasticsearchConfig, now: Timestamp) -> (r: Self)
        ensures
            r.follows(*config, now),
    {
        let server_name = match &config.server_name {
            Some(name) => name.clone(),
            None => cat2("cascade-", signed_decimal_text(now.seconds()).as_str()),
        };
        ElasticsearchClient {
            enabled: config.enabled,
            index_prefix: config.index_prefix.clone(),
            batch_size: config.batch_size,
            flush_interval_seconds: config.flush_interval_seconds,
            buffer: Vec::new(),
            last_flush: now,
            server_name,
        }
    }

    /// The address of the search service, if metrics go to one.
    pub fn node_url(config: &ElasticsearchConfig) -> (r: Option<String>)
        ensures
            match r {
                Some(url) => config.enabled && url@ == service_url(*config),
                None => !config.enabled,
            },
    {
        if !config.enabled {
            return None;
        }
        match &config.url {
            Some(url) => Some(url.clone()),
            None => Some("http://localhost:9200".to_owned()),
        }
    }

    /// Takes a document in under the name of this server, and gives out the batch that is
    /// due, if one is.
    pub fn index_metrics(&mut self, metrics: MetricsDocument) -> (r: Vec<MetricsDocument>)
        ensures
            exists|now: Timestamp|
                {
                    &&& final(self)@ == #[trigger] old(self)@.indexed(metrics, now)
                    &&& r@ == old(self)@.sent_on(metrics, now)
                },
    {
        let now = utc_now();
        self.index_metrics_at(metrics, now)
    }

    /// Takes a document in at `now`.
    pub fn index_metrics_at(&mut self, metrics: MetricsDocument, now: Timestamp) -> (r: Vec<
        MetricsDocument,
    >)
        ensures
            final(self)@ == old(self)@.indexed(metrics, now),
            r@ == old(self)@.sent_on(metrics, now),
    {
        if !self.enabled {
            return Vec::new();
        }
        let mut metrics = metrics;
        metrics.server_name = self.server_name.clone();
        self.buffer.push(metrics);
        let due = self.buffer.len() >= self.batch_size || elapsed_seconds(now, self.last_flush)
            >= self.flush_interval_seconds as i64;
        if due {
            let batch = self.drain();
            self.last_flush = now;
            batch
        } else {
            Vec::new()
        }
    }

    /// Gives out everything that waits.
    pub fn flush(&mut self) -> (r: Vec<MetricsDocument>)
        ensures
            exists|now: Timestamp| final(self)@ == #[trigger] old(self)@.flushed(now),
            r@ == old(self)@.sent_on_flush(),
    {
        let now = utc_now();
        self.flush_at(now)
    }

    /// Gives out everything that waits, at `now`.
    pub fn flush_at(&mut self, now: Timestamp) -> (r: Vec<MetricsDocument>)
        ensures
            final(self)@ == old(self)@.flushed(now),
            r@ == old(self)@.sent_on_flush(),
    {
        if !self.enabled {
            return Vec::new();
        }
        let batch = self.drain();
        self.last_flush = now;
        batch
    }

    fn drain(&mut self) -> (r: Vec<MetricsDocument>)
        ensures
            r@ == old(self)@.waiting,
            final(self)@ == (ClientView { waiting: Seq::empty(), ..old(self)@ }),
    {
        let mut batch: Vec<MetricsDocument> = Vec::new();
        std::mem::swap(&mut batch, &mut self.buffer);
        batch
    }

    /// The index that a batch goes to, given the calendar date.
    pub fn index_name(&self, date: &str) -> (r: String)
        ensures
            r@ == self@.index_prefix + "-"@ + date@,
    {
        cat3(self.index_prefix.as_str(), "-", date)
    }

    /// The index that a batch goes to today; none for an empty batch.
    pub fn batch_index(&self, batch: &Vec<MetricsDocument>) -> (r: Option<String>)
        ensures
            match r {
                Some(name) => batch@.len() > 0 && exists|now: Timestamp|
                    name@ == self@.index_prefix + "-"@ + dotted_date(#[trigger] now.second()),
                None => batch@.len() == 0,
            },
    {
        if batch.len() == 0 {
            return None;
        }
        let now = utc_now();
        let date = date_label(now);
        let name = self.index_name(date.as_str());
        assert(name@ == self@.index_prefix + "-"@ + dotted_date(now.second()));
        Some(name)
    }

    /// How the indices are set up, if metrics go to a search service.
    pub fn create_index_template(&self) -> (r: Option<IndexTemplate>)
        ensures
            match r {
                Some(t) => {
                    &&& self@.enabled
                    &&& t.name@ == self@.index_prefix + "-template"@
                    &&& t.index_pattern@ == self@.index_prefix + "*"@
                    &&& t.number_of_shards == 1
                    &&& t.number_of_replicas == 0
                    &&& t.refresh_interval@ == "5s"@
                    &&& mappings(t.properties@) == metric_fields()
                },
                None => !self@.enabled,
            },
    {
        if !self.enabled {
            return None;
        }
        let mut properties: Vec<FieldMapping> = Vec::new();
        properties.push(field("@timestamp", "date"));
        properties.push(field("server_name", "keyword"));
        properties.push(field("bytes_per_second", "double"));
        properties.push(field("requests_per_second", "double"));
        properties.push(field("segments_per_second", "double"));
        properties.push(field("viewers", "long"));
        properties.push(field("active_streams", "long"));
        properties.push(field("cache_hit_rate", "double"));
        properties.push(field("cache_memory_mb", "double"));
        properties.push(field("cache_entries", "long"));
        properties.push(field("mbps", "double"));
        properties.push(
            FieldMapping {
                name: "stream_viewers".to_owned(),
                kind: "object".to_owned(),
                enabled: Some(true),
            },
        );
        assert(mappings(properties@) =~= metric_fields());
        Some(
            IndexTemplate {
                name: cat2(self.index_prefix.as_str(), "-template"),
                index_pattern: cat2(self.index_prefix.as_str(), "*"),
                number_of_shards: 1,
                number_of_replicas: 0,
                refresh_interval: "5s".to_owned(),
                properties,
            },
        )
    }
}

fn field(name: &str, kind: &str) -> (r: FieldMapping)
    ensures
        r.name@ == name@,
        r.kind@ == kind@,
        r.enabled is None,
{
    FieldMapping { name: name.to_owned(), kind: kind.to_owned(), enabled: None }
}

/// No document is lost, sent twice or overtaken: what is sent and what still waits are
/// what waited before and the new document, in that order.
pub proof fn law_no_document_is_lost(c: ClientView, doc: MetricsDocument, now: Timestamp)
    requires
        c.enabled,
    ensures
        c.sent_on(doc, now) + c.indexed(doc, now).waiting == c.waiting.push(doc.labelled(c.server_name)),
        c.sent_on_flush() + c.flushed(now).waiting == c.waiting,
{
    assert(c.sent_on(doc, now) + c.indexed(doc, now).waiting =~= c.waiting.push(
        doc.labelled(c.server_name),
    ));
    assert(c.sent_on_flush() + c.flushed(now).waiting =~= c.waiting);
}

/// Fewer documents wait than make a batch, whenever one was taken in.
pub proof fn law_waiting_stays_under_a_batch(c: ClientView, doc: MetricsDocument, now: Timestamp)
    requires
        c.enabled,
        c.batch_size > 0,
    ensures
        c.indexed(doc, now).waiting.len() < c.batch_size,
{
}

/// Without a search service nothing is kept and nothing is sent.
pub proof fn law_disabled_client_is_inert(c: ClientView, doc: MetricsDocument, now: Timestamp)
    requires
        !c.enabled,
    ensures
        c.indexed(doc, now) == c,
        c.flushed(now) == c,
        c.sent_on(doc, now).len() == 0,
        c.sent_on_flush().len() == 0,
{
}

/// A batch is sent with a document exactly where that document makes the batch full, or as
/// many whole seconds as the flush interval have passed since the last one was sent; the
/// time of sending is then noted, and else nothing but the document is.
pub proof fn law_batch_is_sent_when_due(c: ClientView, doc: MetricsDocument, now: Timestamp)
    requires
        c.enabled,
    ensures
        ({
            let due = c.waiting.len() + 1 >= c.batch_size || seconds_between(now, c.last_flush)
                >= c.flush_interval_seconds as i64;
            let (sent, after) = (c.sent_on(doc, now), c.indexed(doc, now));
            &&& due ==> {
                &&& sent.len() == c.waiting.len() + 1
                &&& after.waiting.len() == 0
                &&& after.last_flush == now
            }
            &&& !due ==> {
                &&& sent.len() == 0
                &&& after.waiting.len() == c.waiting.len() + 1
                &&& after.last_flush == c.last_flush
            }
            &&& after.server_name == c.server_name && after.enabled == c.enabled
            &&& after.batch_size == c.batch_size && after.index_prefix == c.index_prefix
            &&& after.flush_interval_seconds == c.flush_interval_seconds
            &&& c.flushed(now).last_flush == now
        }),
{
}

/// A document goes out under the name of the server, whatever name it came with, and else
/// as it came.
pub proof fn law_document_bears_the_servers_name(c: ClientView, doc: MetricsDocument, now: Timestamp)
    requires
        c.enabled,
    ensures
        ({
            let out = (c.sent_on(doc, now) + c.indexed(doc, now).waiting).last();
            &&& out.server_name == c.server_name
            &&& out.timestamp == doc.timestamp
            &&& out.viewers == doc.viewers
            &&& out.rates == doc.rates
            &&& out.subject == doc.subject
        }),
{
    law_no_document_is_lost(c, doc, now);
}

/// A server without a name is named after the second it started at, and a service without
/// an address is sought on this machine.
pub proof fn law_unset_names_have_defaults(config: ElasticsearchConfig, now: Timestamp)
    ensures
        default_server_name(now) == "cascade-"@ + signed_decimal(now.second()),
        config.url is None ==> service_url(config) == "http://localhost:9200"@,
        config.url is Some ==> service_url(config) == config.url->0@,
{
}

/// The index knows each field of a document, rates as fractions and counts as whole numbers.
pub proof fn law_index_knows_each_field()
    ensures
        metric_fields().len() == 12,
        metric_fields()[0] == ("@timestamp"@, "date"@, None::<bool>),
        metric_fields()[1] == ("server_name"@, "keyword"@, None::<bool>),
        metric_fields()[2] == ("bytes_per_second"@, "double"@, None::<bool>),
        metric_fields()[3] == ("requests_per_second"@, "double"@, None::<bool>),
        metric_fields()[4] == ("segments_per_second"@, "double"@, None::<bool>),
        metric_fields()[5] == ("viewers"@, "long"@, None::<bool>),
        metric_fields()[6] == ("active_streams"@, "long"@, None::<bool>),
        metric_fields()[7] == ("cache_hit_rate"@, "double"@, None::<bool>),
        metric_fields()[8] == ("cache_memory_mb"@, "double"@, None::<bool>),
        metric_fields()[9] == ("cache_entries"@, "long"@, None::<bool>),
        metric_fields()[10] == ("mbps"@, "double"@, None::<bool>),
        metric_fields()[11] == ("stream_viewers"@, "object"@, Some(true)),
{
}

} // verus!
