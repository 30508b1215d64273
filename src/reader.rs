//! The reader: builds the connection list from the manifest and from what
//! the storage backend reports, and serves the messages ordered by
//! timestamp, filtered by topic and time window.
//!
//! The reader makes no I/O of its own: the caller opens the backend named by
//! [`Reader::storage_plugin`] on the files of [`Reader::storage_paths`], and
//! hands what it read to [`Reader::open`] as [`StorageContents`].

use vstd::prelude::*;

use crate::error::BagError;
use crate::metadata::{
    manifest_valid, resolve_storage_plugin, storage_choice, validation_error, BagFileInformation,
    BagMetadata, QosProfilesField, end_time_of,
};
use crate::types::{
    copy_bytes, copy_profiles, Connection, ConnectionView, Message, MessageDefinition,
    MessageView, StoragePlugin, TopicInfo,
};

verus! {

/// A message as a storage backend yields it: topic, timestamp, payload.
pub struct StoredMessage {
    pub topic: String,
    pub timestamp: u64,
    pub data: Vec<u8>,
}

/// What a storage backend reported when it was opened.
pub struct StorageContents {
    /// The topics it holds, with the message counts it measured.
    pub connections: Vec<Connection>,
    /// Message definitions by message type.
    pub definitions: Vec<(String, MessageDefinition)>,
    /// All its messages, in any order.
    pub messages: Vec<StoredMessage>,
}

pub open spec fn stored_view(m: StoredMessage) -> (Seq<char>, u64, Seq<u8>) {
    (m.topic@, m.timestamp, m.data@)
}

pub open spec fn conn_views(s: Seq<Connection>) -> Seq<ConnectionView> {
    s.map_values(|c: Connection| c@)
}

pub open spec fn msg_views(s: Seq<Message>) -> Seq<MessageView> {
    s.map_values(|m: Message| m@)
}

pub open spec fn def_views(s: Seq<(String, MessageDefinition)>) -> Seq<
    (Seq<char>, crate::types::MessageDefinitionFormat, Seq<char>),
> {
    s.map_values(|d: (String, MessageDefinition)| (d.0@, d.1.format, d.1.data@))
}

/// Index of the first connection from `from` on whose topic is `topic`, or
/// -1.
pub open spec fn find_topic(conns: Seq<ConnectionView>, topic: Seq<char>, from: int) -> int
    decreases conns.len() - from,
{
    if from < 0 || from >= conns.len() {
        -1
    } else if conns[from].topic == topic {
        from
    } else {
        find_topic(conns, topic, from + 1)
    }
}

/// Index of the first definition from `from` on for message type `ty`, or
/// -1.
pub open spec fn find_definition(
    defs: Seq<(Seq<char>, crate::types::MessageDefinitionFormat, Seq<char>)>,
    ty: Seq<char>,
    from: int,
) -> int
    decreases defs.len() - from,
{
    if from < 0 || from >= defs.len() {
        -1
    } else if defs[from].0 == ty {
        from
    } else {
        find_definition(defs, ty, from + 1)
    }
}

/// The connection that the manifest describes for its `i`-th topic.
pub open spec fn manifest_connection(info: BagFileInformation, i: int) -> ConnectionView {
    let t = info.topics_with_message_count@[i];
    ConnectionView {
        id: (i + 1) as u32,
        topic: t.topic_metadata.name@,
        message_type: t.topic_metadata.message_type@,
        definition_format: crate::types::MessageDefinitionFormat::Absent,
        definition: Seq::empty(),
        type_description_hash: t.topic_metadata.type_description_hash@,
        message_count: t.message_count,
        serialization_format: t.topic_metadata.serialization_format@,
        offered_qos_profiles: match t.topic_metadata.offered_qos_profiles {
            QosProfilesField::List(l) => l@,
            QosProfilesField::String(_) => Seq::empty(),
        },
    }
}

/// The connections that the manifest describes, ids from 1 in order.
pub open spec fn manifest_connections(info: BagFileInformation) -> Seq<ConnectionView> {
    Seq::new(
        info.topics_with_message_count@.len(),
        |i: int| manifest_connection(info, i),
    )
}

/// Chunked-binary merge: each backend topic already listed gets the
/// backend's count; each other one is added at the end with the next id.
pub open spec fn merge_counts(acc: Seq<ConnectionView>, backend: Seq<ConnectionView>) -> Seq<
    ConnectionView,
>
    decreases backend.len(),
{
    if backend.len() == 0 {
        acc
    } else {
        let a = merge_counts(acc, backend.drop_last());
        let b = backend.last();
        let k = find_topic(a, b.topic, 0);
        if k >= 0 {
            a.update(k, ConnectionView { message_count: b.message_count, ..a[k] })
        } else {
            a.push(ConnectionView { id: (a.len() + 1) as u32, ..b })
        }
    }
}

/// The connection list after the backend reported its topics: the
/// relational database replaces the manifest's list when it has any; the
/// chunked-binary file merges into it.
pub open spec fn merged_connections(
    plugin: StoragePlugin,
    manifest: Seq<ConnectionView>,
    backend: Seq<ConnectionView>,
) -> Seq<ConnectionView> {
    if plugin == StoragePlugin::Sqlite3 {
        if backend.len() > 0 {
            backend
        } else {
            manifest
        }
    } else {
        merge_counts(manifest, backend)
    }
}

/// A connection with the definition of its message type, when one is given.
pub open spec fn with_definition(
    c: ConnectionView,
    defs: Seq<(Seq<char>, crate::types::MessageDefinitionFormat, Seq<char>)>,
) -> ConnectionView {
    let k = find_definition(defs, c.message_type, 0);
    if k >= 0 {
        ConnectionView { definition_format: defs[k].1, definition: defs[k].2, ..c }
    } else {
        c
    }
}

pub open spec fn with_definitions(
    conns: Seq<ConnectionView>,
    defs: Seq<(Seq<char>, crate::types::MessageDefinitionFormat, Seq<char>)>,
) -> Seq<ConnectionView> {
    conns.map_values(|c: ConnectionView| with_definition(c, defs))
}

/// A stored message with the first connection of its topic.
pub open spec fn attach(conns: Seq<ConnectionView>, m: (Seq<char>, u64, Seq<u8>)) -> MessageView {
    MessageView {
        connection: conns[find_topic(conns, m.0, 0)],
        topic: m.0,
        timestamp: m.1,
        data: m.2,
    }
}

/// Whether every stored message has a connection of its topic.
pub open spec fn all_attached(conns: Seq<ConnectionView>, msgs: Seq<(Seq<char>, u64, Seq<u8>)>) -> bool {
    forall|i: int| 0 <= i < msgs.len() ==> find_topic(conns, #[trigger] msgs[i].0, 0) >= 0
}

/// Messages in non-decreasing timestamp order.
pub open spec fn sorted_by_time(s: Seq<MessageView>) -> bool {
    forall|i: int, j: int| 0 <= i < j < s.len() ==> #[trigger] s[i].timestamp <= #[trigger] s[j].timestamp
}

/// Whether a topic passes the connection filter: no filter, an empty one,
/// or one that holds a connection of that topic.
pub open spec fn topic_selected(conns: Option<Seq<ConnectionView>>, topic: Seq<char>) -> bool {
    match conns {
        None => true,
        Some(cs) => cs.len() == 0 || exists|i: int| 0 <= i < cs.len() && #[trigger] cs[i].topic == topic,
    }
}

/// Whether a timestamp lies in `[start, stop)`, either bound optional.
pub open spec fn in_window(ts: u64, start: Option<u64>, stop: Option<u64>) -> bool {
    &&& (start matches Some(a) ==> a <= ts)
    &&& (stop matches Some(b) ==> ts < b)
}

pub open spec fn selected(
    m: MessageView,
    conns: Option<Seq<ConnectionView>>,
    start: Option<u64>,
    stop: Option<u64>,
) -> bool {
    topic_selected(conns, m.topic) && in_window(m.timestamp, start, stop)
}

pub open spec fn filter_view(conns: Option<&[Connection]>) -> Option<Seq<ConnectionView>> {
    match conns {
        None => None,
        Some(cs) => Some(cs@.map_values(|c: Connection| c@)),
    }
}



/// What `topics` reports for one topic.
pub ghost struct TopicInfoView {
    pub name: Seq<char>,
    pub message_type: Seq<char>,
    pub definition_format: crate::types::MessageDefinitionFormat,
    pub definition: Seq<char>,
    pub message_count: int,
    pub connections: Seq<ConnectionView>,
}

pub open spec fn topic_info_view(t: TopicInfo) -> TopicInfoView {
    TopicInfoView {
        name: t.name@,
        message_type: t.message_type@,
        definition_format: t.message_definition.format,
        definition: t.message_definition.data@,
        message_count: t.message_count as int,
        connections: conn_views(t.connections@),
    }
}

/// Index of the first summary from `from` on for topic `name`, or -1.
pub open spec fn find_summary(s: Seq<TopicInfoView>, name: Seq<char>, from: int) -> int
    decreases s.len() - from,
{
    if from < 0 || from >= s.len() {
        -1
    } else if s[from].name == name {
        from
    } else {
        find_summary(s, name, from + 1)
    }
}

/// Connections grouped by topic, topics in order of first appearance: each
/// group has the first connection's type and definition, and the sum of
/// the counts.
pub open spec fn group_by_topic(conns: Seq<ConnectionView>) -> Seq<TopicInfoView>
    decreases conns.len(),
{
    if conns.len() == 0 {
        Seq::empty()
    } else {
        let a = group_by_topic(conns.drop_last());
        let c = conns.last();
        let k = find_summary(a, c.topic, 0);
        if k >= 0 {
            a.update(
                k,
                TopicInfoView {
                    message_count: a[k].message_count + c.message_count,
                    connections: a[k].connections.push(c),
                    ..a[k]
                },
            )
        } else {
            a.push(
                TopicInfoView {
                    name: c.topic,
                    message_type: c.message_type,
                    definition_format: c.definition_format,
                    definition: c.definition,
                    message_count: c.message_count as int,
                    connections: seq![c],
                },
            )
        }
    }
}

/// Sum of the message counts of some connections.
pub open spec fn connection_total(conns: Seq<ConnectionView>) -> int
    decreases conns.len(),
{
    if conns.len() == 0 {
        0
    } else {
        connection_total(conns.drop_last()) + conns.last().message_count
    }
}

/// Sum of the message counts of some topic summaries.
pub open spec fn summary_total(s: Seq<TopicInfoView>) -> int
    decreases s.len(),
{
    if s.len() == 0 {
        0
    } else {
        summary_total(s.drop_last()) + s.last().message_count
    }
}

proof fn lemma_summary_total_update(s: Seq<TopicInfoView>, k: int, v: TopicInfoView)
    requires
        0 <= k < s.len(),
    ensures
        summary_total(s.update(k, v)) == summary_total(s) - s[k].message_count + v.message_count,
    decreases s.len(),
{
    if k == s.len() - 1 {
        assert(s.update(k, v).drop_last() =~= s.drop_last());
    } else {
        lemma_summary_total_update(s.drop_last(), k, v);
        assert(s.update(k, v).drop_last() =~= s.drop_last().update(k, v));
    }
}

proof fn lemma_summary_total_push(s: Seq<TopicInfoView>, v: TopicInfoView)
    ensures
        summary_total(s.push(v)) == summary_total(s) + v.message_count,
{
    assert(s.push(v).drop_last() =~= s);
}

/// Grouping connections by topic keeps the total message count: the
/// per-topic counts add up to the counts of all connections.
pub proof fn lemma_topic_counts_add_up(conns: Seq<ConnectionView>)
    ensures
        summary_total(group_by_topic(conns)) == connection_total(conns),
    decreases conns.len(),
{
    if conns.len() > 0 {
        lemma_topic_counts_add_up(conns.drop_last());
        let a = group_by_topic(conns.drop_last());
        let c = conns.last();
        let k = find_summary(a, c.topic, 0);
        lemma_find_summary_range(a, c.topic, 0);
        if k >= 0 {
            lemma_summary_total_update(
                a,
                k,
                TopicInfoView {
                    message_count: a[k].message_count + c.message_count,
                    connections: a[k].connections.push(c),
                    ..a[k]
                },
            );
        } else {
            lemma_summary_total_push(
                a,
                TopicInfoView {
                    name: c.topic,
                    message_type: c.message_type,
                    definition_format: c.definition_format,
                    definition: c.definition,
                    message_count: c.message_count as int,
                    connections: seq![c],
                },
            );
        }
    }
}

proof fn lemma_find_summary_range(s: Seq<TopicInfoView>, name: Seq<char>, from: int)
    ensures
        find_summary(s, name, from) == -1 || (from <= find_summary(s, name, from) < s.len()
            && s[find_summary(s, name, from)].name == name),
    decreases s.len() - from,
{
    if 0 <= from < s.len() && s[from].name != name {
        lemma_find_summary_range(s, name, from + 1);
    }
}

/// Messages of a sorted sequence that pass a filter are still sorted.
pub proof fn lemma_filter_sorted(s: Seq<MessageView>, pred: spec_fn(MessageView) -> bool)
    requires
        sorted_by_time(s),
    ensures
        sorted_by_time(s.filter(pred)),
    decreases s.len(),
{
    reveal(Seq::filter);
    if s.len() > 0 {
        let d = s.drop_last();
        assert(sorted_by_time(d));
        lemma_filter_sorted(d, pred);
        let f = d.filter(pred);
        if pred(s.last()) {
            assert forall|i: int, j: int|
                0 <= i < j < f.push(s.last()).len() implies #[trigger] f.push(s.last())[i].timestamp
                <= #[trigger] f.push(s.last())[j].timestamp by {
                if j == f.len() {
                    d.lemma_filter_contains_rev(pred, f[i]);
                    assert(d.contains(f[i]));
                    let x = choose|x: int| 0 <= x < d.len() && d[x] == f[i];
                    assert(s[x] == d[x]);
                    assert(s[x].timestamp <= s[s.len() - 1].timestamp);
                }
            }
        }
    }
}

/// The messages of `s` that pass the filter, in order.
pub open spec fn filtered(
    s: Seq<MessageView>,
    conns: Option<Seq<ConnectionView>>,
    start: Option<u64>,
    stop: Option<u64>,
) -> Seq<MessageView> {
    s.filter(|m: MessageView| selected(m, conns, start, stop))
}

/// Every message that passes the filter is on a selected topic and inside
/// the window.
pub proof fn lemma_filter_selects(
    s: Seq<MessageView>,
    conns: Option<Seq<ConnectionView>>,
    start: Option<u64>,
    stop: Option<u64>,
)
    ensures
        forall|i: int|
            0 <= i < filtered(s, conns, start, stop).len() ==> selected(
                #[trigger] filtered(s, conns, start, stop)[i],
                conns,
                start,
                stop,
            ),
{
    let pred = |m: MessageView| selected(m, conns, start, stop);
    assert forall|i: int| 0 <= i < filtered(s, conns, start, stop).len() implies selected(
        #[trigger] filtered(s, conns, start, stop)[i],
        conns,
        start,
        stop,
    ) by {
        s.lemma_filter_pred(pred, i);
    }
}

/// An empty connection filter is no filter.
pub proof fn lemma_empty_topic_filter(s: Seq<MessageView>, start: Option<u64>, stop: Option<u64>)
    ensures
        filtered(s, Some(Seq::<ConnectionView>::empty()), start, stop) == filtered(
            s,
            None,
            start,
            stop,
        ),
{
    assert((|m: MessageView| selected(m, Some(Seq::<ConnectionView>::empty()), start, stop)) =~= (|
        m: MessageView,
    | selected(m, None, start, stop)));
}

/// A window whose start equals its stop selects nothing.
pub proof fn lemma_empty_window(s: Seq<MessageView>, conns: Option<Seq<ConnectionView>>, t: u64)
    ensures
        filtered(s, conns, Some(t), Some(t)).len() == 0,
    decreases s.len(),
{
    reveal(Seq::filter);
    if s.len() > 0 {
        lemma_empty_window(s.drop_last(), conns, t);
    }
}

/// Position of the first connection of topic `topic`.
fn topic_index(conns: &Vec<Connection>, topic: &String) -> (r: Option<usize>)
    ensures
        r matches Some(k) ==> k as int == find_topic(conn_views(conns@), topic@, 0) && k
            < conns@.len(),
        r is None ==> find_topic(conn_views(conns@), topic@, 0) == -1,
{
    let ghost v = conn_views(conns@);
    let mut i: usize = 0;
    while i < conns.len()
        invariant
            i <= conns@.len(),
            v == conn_views(conns@),
            find_topic(v, topic@, 0) == find_topic(v, topic@, i as int),
        decreases conns@.len() - i,
    {
        proof {
            assert(v[i as int] == conns@[i as int]@);
        }
        if conns[i].topic == *topic {
            return Some(i);
        }
        i = i + 1;
    }
    None
}

/// Position of the first definition for message type `ty`.
fn definition_index(defs: &Vec<(String, MessageDefinition)>, ty: &String) -> (r: Option<usize>)
    ensures
        r matches Some(k) ==> k as int == find_definition(def_views(defs@), ty@, 0) && k
            < defs@.len(),
        r is None ==> find_definition(def_views(defs@), ty@, 0) == -1,
{
    let ghost v = def_views(defs@);
    let mut i: usize = 0;
    while i < defs.len()
        invariant
            i <= defs@.len(),
            v == def_views(defs@),
            find_definition(v, ty@, 0) == find_definition(v, ty@, i as int),
        decreases defs@.len() - i,
    {
        proof {
            assert(v[i as int] == (defs@[i as int].0@, defs@[i as int].1.format, defs@[i as int].1.data@));
        }
        if defs[i].0 == *ty {
            return Some(i);
        }
        i = i + 1;
    }
    None
}

/// The connections that the manifest describes.
fn connections_from_manifest(info: &BagFileInformation) -> (r: Vec<Connection>)
    requires
        info.topics_with_message_count@.len() < u32::MAX,
    ensures
        conn_views(r@) == manifest_connections(*info),
{
    let topics = &info.topics_with_message_count;
    let mut r: Vec<Connection> = Vec::new();
    let mut i: usize = 0;
    while i < topics.len()
        invariant
            i <= topics@.len(),
            topics == &info.topics_with_message_count,
            topics@.len() < u32::MAX,
            conn_views(r@) == manifest_connections(*info).take(i as int),
        decreases topics@.len() - i,
    {
        let t = &topics[i];
        let profiles = match &t.topic_metadata.offered_qos_profiles {
            QosProfilesField::List(l) => copy_profiles(l),
            QosProfilesField::String(_) => Vec::new(),
        };
        let c = Connection {
            id: (i + 1) as u32,
            topic: t.topic_metadata.name.clone(),
            message_type: t.topic_metadata.message_type.clone(),
            message_definition: MessageDefinition::default(),
            type_description_hash: t.topic_metadata.type_description_hash.clone(),
            message_count: t.message_count,
            serialization_format: t.topic_metadata.serialization_format.clone(),
            offered_qos_profiles: profiles,
        };
        let ghost before = r@;
        r.push(c);
        proof {
            assert(c@ == manifest_connection(*info, i as int));
            assert(conn_views(r@) =~= conn_views(before).push(c@));
            assert(manifest_connections(*info).take(i + 1) =~= manifest_connections(*info).take(
                i as int,
            ).push(manifest_connection(*info, i as int)));
        }
        i = i + 1;
    }
    proof {
        assert(manifest_connections(*info).take(i as int) =~= manifest_connections(*info));
    }
    r
}

/// Merge the backend's topics into the connection list.
fn merge_connections(plugin: StoragePlugin, manifest: Vec<Connection>, backend: &Vec<Connection>) -> (r:
    Vec<Connection>)
    requires
        manifest@.len() + backend@.len() < u32::MAX,
    ensures
        conn_views(r@) == merged_connections(plugin, conn_views(manifest@), conn_views(backend@)),
{
    if plugin == StoragePlugin::Sqlite3 {
        if backend.len() > 0 {
            let mut r: Vec<Connection> = Vec::new();
            let mut i: usize = 0;
            while i < backend.len()
                invariant
                    i <= backend@.len(),
                    conn_views(r@) == conn_views(backend@).take(i as int),
                decreases backend@.len() - i,
            {
                let ghost before = r@;
                r.push(backend[i].duplicate());
                proof {
                    assert(conn_views(r@) =~= conn_views(before).push(backend@[i as int]@));
                    assert(conn_views(backend@).take(i + 1) =~= conn_views(backend@).take(i as int).push(
                        backend@[i as int]@,
                    ));
                }
                i = i + 1;
            }
            proof {
                assert(conn_views(backend@).take(i as int) =~= conn_views(backend@));
            }
            return r;
        }
        return manifest;
    }
    let ghost m = conn_views(manifest@);
    let ghost b = conn_views(backend@);
    let mut acc = manifest;
    let mut i: usize = 0;
    while i < backend.len()
        invariant
            i <= backend@.len(),
            b == conn_views(backend@),
            m.len() + b.len() < u32::MAX,
            acc@.len() <= m.len() + i,
            conn_views(acc@) == merge_counts(m, b.take(i as int)),
        decreases backend@.len() - i,
    {
        proof {
            assert(b.take(i + 1).drop_last() =~= b.take(i as int));
            assert(b.take(i + 1).last() == b[i as int]);
            assert(b[i as int] == backend@[i as int]@);
        }
        let ghost before = conn_views(acc@);
        match topic_index(&acc, &backend[i].topic) {
            Some(k) => {
                let mut c = acc[k].duplicate();
                c.message_count = backend[i].message_count;
                acc.set(k, c);
                proof {
                    assert(conn_views(acc@) =~= before.update(
                        k as int,
                        ConnectionView { message_count: b[i as int].message_count, ..before[k as int] },
                    ));
                }
            },
            None => {
                let mut c = backend[i].duplicate();
                c.id = (acc.len() + 1) as u32;
                acc.push(c);
                proof {
                    assert(conn_views(acc@) =~= before.push(
                        ConnectionView { id: (before.len() + 1) as u32, ..b[i as int] },
                    ));
                }
            },
        }
        i = i + 1;
    }
    proof {
        assert(b.take(i as int) =~= b);
    }
    acc
}

/// Give each connection the definition of its message type, when one is
/// given.
fn apply_definitions(conns: &mut Vec<Connection>, defs: &Vec<(String, MessageDefinition)>)
    ensures
        conn_views(final(conns)@) == with_definitions(conn_views(old(conns)@), def_views(defs@)),
{
    let ghost start = conn_views(conns@);
    let ghost d = def_views(defs@);
    let mut i: usize = 0;
    while i < conns.len()
        invariant
            i <= conns@.len(),
            conns@.len() == start.len(),
            d == def_views(defs@),
            forall|k: int| 0 <= k < i ==> #[trigger] conn_views(conns@)[k] == with_definition(start[k], d),
            forall|k: int| i <= k < conns@.len() ==> #[trigger] conn_views(conns@)[k] == start[k],
        decreases conns@.len() - i,
    {
        let ghost before = conns@;
        proof {
            assert(conn_views(conns@)[i as int] == conns@[i as int]@);
        }
        match definition_index(defs, &conns[i].message_type) {
            Some(k) => {
                let mut c = conns[i].duplicate();
                c.message_definition = defs[k].1.duplicate();
                conns.set(i, c);
                proof {
                    assert(d[k as int] == (defs@[k as int].0@, defs@[k as int].1.format, defs@[k as int].1.data@));
                    assert forall|x: int| 0 <= x < conns@.len() && x != i implies #[trigger] conn_views(conns@)[x]
                        == conn_views(before)[x] by {
                        assert(conns@[x] == before[x]);
                    }
                }
            },
            None => {},
        }
        i = i + 1;
    }
    proof {
        assert(conn_views(conns@) =~= with_definitions(start, d));
    }
}

/// The stored messages, each with the first connection of its topic.
fn attach_connections(conns: &Vec<Connection>, stored: Vec<StoredMessage>) -> (r: Result<
    Vec<Message>,
    BagError,
>)
    ensures
        r is Ok <==> all_attached(conn_views(conns@), stored@.map_values(|m: StoredMessage| stored_view(m))),
        r matches Ok(v) ==> msg_views(v@) == stored@.map_values(|m: StoredMessage| stored_view(m)).map_values(
            |m: (Seq<char>, u64, Seq<u8>)| attach(conn_views(conns@), m),
        ),
        r matches Err(e) ==> e matches BagError::ConnectionNotFound { .. },
{
    let ghost cv = conn_views(conns@);
    let ghost sv = stored@.map_values(|m: StoredMessage| stored_view(m));
    let ghost target = sv.map_values(|m: (Seq<char>, u64, Seq<u8>)| attach(cv, m));
    let mut r: Vec<Message> = Vec::new();
    let mut i: usize = 0;
    while i < stored.len()
        invariant
            i <= stored@.len(),
            cv == conn_views(conns@),
            sv == stored@.map_values(|m: StoredMessage| stored_view(m)),
            target == sv.map_values(|m: (Seq<char>, u64, Seq<u8>)| attach(cv, m)),
            msg_views(r@) == target.take(i as int),
            forall|k: int| 0 <= k < i ==> find_topic(cv, #[trigger] sv[k].0, 0) >= 0,
        decreases stored@.len() - i,
    {
        let m = &stored[i];
        proof {
            assert(sv[i as int] == stored_view(stored@[i as int]));
        }
        match topic_index(conns, &m.topic) {
            Some(k) => {
                let msg = Message {
                    connection: conns[k].duplicate(),
                    topic: m.topic.clone(),
                    timestamp: m.timestamp,
                    data: copy_bytes(&m.data),
                };
                let ghost before = r@;
                r.push(msg);
                proof {
                    assert(msg@ == attach(cv, sv[i as int]));
                    assert(target[i as int] == attach(cv, sv[i as int]));
                    assert(msg_views(r@) =~= msg_views(before).push(msg@));
                    assert(target.take(i + 1) =~= target.take(i as int).push(target[i as int]));
                }
            },
            None => {
                proof {
                    assert(!all_attached(cv, sv));
                }
                return Err(BagError::ConnectionNotFound { topic: m.topic.clone() });
            },
        }
        i = i + 1;
    }
    proof {
        assert(target.take(i as int) =~= target);
    }
    Ok(r)
}

/// Order messages by timestamp; messages with equal timestamps keep their
/// order.
pub fn sort_by_timestamp(msgs: Vec<Message>) -> (r: Vec<Message>)
    ensures
        sorted_by_time(msg_views(r@)),
        msg_views(r@).to_multiset() == msg_views(msgs@).to_multiset(),
{
    broadcast use vstd::seq_lib::group_to_multiset_ensures;

    let ghost input = msg_views(msgs@);
    let mut r: Vec<Message> = Vec::new();
    let mut i: usize = 0;
    while i < msgs.len()
        invariant
            i <= msgs@.len(),
            input == msg_views(msgs@),
            sorted_by_time(msg_views(r@)),
            msg_views(r@).to_multiset() == input.take(i as int).to_multiset(),
        decreases msgs@.len() - i,
    {
        let ts = msgs[i].timestamp;
        let mut p: usize = r.len();
        while p > 0 && r[p - 1].timestamp > ts
            invariant
                p <= r@.len(),
                forall|k: int| p <= k < r@.len() ==> #[trigger] r@[k].timestamp > ts,
            decreases p,
        {
            p = p - 1;
        }
        let ghost before = msg_views(r@);
        let m = msgs[i].duplicate();
        r.insert(p, m);
        proof {
            assert(msg_views(r@) =~= before.insert(p as int, m@));
            assert(input.take(i + 1) =~= input.take(i as int).push(input[i as int]));
            assert(input[i as int] == m@);
            vstd::seq_lib::to_multiset_insert(before, p as int, m@);
            vstd::seq_lib::to_multiset_build(input.take(i as int), m@);
            assert forall|a: int, b: int|
                0 <= a < b < msg_views(r@).len() implies #[trigger] msg_views(r@)[a].timestamp
                <= #[trigger] msg_views(r@)[b].timestamp by {
                if p > 0 {
                    assert(before[p - 1].timestamp <= ts);
                }
                if a < p as int && b == p as int {
                    assert(before[a].timestamp <= before[p - 1].timestamp);
                } else if a == p as int && b > p as int {
                    assert(msg_views(r@)[b] == before[b - 1]);
                }
            }
        }
        i = i + 1;
    }
    proof {
        assert(input.take(i as int) =~= input);
    }
    r
}


/// What opening a reader on a manifest and a backend's contents does: the
/// backend the manifest selects must exist and every stored message must
/// have a connection of its topic; then the connections and the ordered
/// messages are as described, and otherwise the reader stays closed.
pub open spec fn opened(info: BagFileInformation, contents: StorageContents, ok: bool, rd: Reader) -> bool {
    match storage_choice(info.storage_identifier@, info.relative_file_paths@) {
        None => !ok,
        Some(plugin) => {
            let conns = with_definitions(
                merged_connections(plugin, manifest_connections(info), conn_views(contents.connections@)),
                def_views(contents.definitions@),
            );
            let stored = contents.messages@.map_values(|m: StoredMessage| stored_view(m));
            &&& ok == all_attached(conns, stored)
            &&& ok ==> rd.open_spec() && rd.conns() == conns && rd.msgs().to_multiset()
                == stored.map_values(|m: (Seq<char>, u64, Seq<u8>)| attach(conns, m)).to_multiset()
        },
    }
}

/// Whether some connection of `cs` has topic `topic`.
fn topic_listed(cs: &[Connection], topic: &String) -> (r: bool)
    ensures
        r == exists|i: int| 0 <= i < cs@.len() && #[trigger] cs@[i].topic@ == topic@,
{
    let mut i: usize = 0;
    while i < cs.len()
        invariant
            i <= cs@.len(),
            forall|k: int| 0 <= k < i ==> #[trigger] cs@[k].topic@ != topic@,
        decreases cs@.len() - i,
    {
        if cs[i].topic == *topic {
            return true;
        }
        i = i + 1;
    }
    false
}

proof fn lemma_filter_all(s: Seq<MessageView>)
    ensures
        filtered(s, None, None, None) == s,
    decreases s.len(),
{
    reveal(Seq::filter);
    if s.len() > 0 {
        lemma_filter_all(s.drop_last());
        assert(s.drop_last().push(s.last()) =~= s);
    }
}

proof fn lemma_prefix_total(cv: Seq<ConnectionView>, n: int)
    requires
        0 <= n <= cv.len(),
    ensures
        connection_total(cv.take(n)) <= connection_total(cv),
    decreases cv.len(),
{
    if n < cv.len() {
        assert(cv.drop_last().take(n) =~= cv.take(n));
        lemma_prefix_total(cv.drop_last(), n);
    } else {
        assert(cv.take(n) =~= cv);
    }
}

proof fn lemma_summary_bound(g: Seq<TopicInfoView>, k: int)
    requires
        0 <= k < g.len(),
        forall|i: int| 0 <= i < g.len() ==> #[trigger] g[i].message_count >= 0,
    ensures
        g[k].message_count <= summary_total(g),
    decreases g.len(),
{
    if k < g.len() - 1 {
        lemma_summary_bound(g.drop_last(), k);
    }
    lemma_summary_nonneg(g.drop_last());
}

proof fn lemma_summary_nonneg(g: Seq<TopicInfoView>)
    requires
        forall|i: int| 0 <= i < g.len() ==> #[trigger] g[i].message_count >= 0,
    ensures
        summary_total(g) >= 0,
    decreases g.len(),
{
    if g.len() > 0 {
        lemma_summary_nonneg(g.drop_last());
    }
}

/// The reader of one bag.
pub struct Reader {
    bag_path: String,
    metadata: Option<BagMetadata>,
    connections: Vec<Connection>,
    messages: Vec<Message>,
    is_open: bool,
}

impl Reader {
    /// The reader's invariant: the messages are ordered by timestamp.
    pub closed spec fn wf(&self) -> bool {
        sorted_by_time(msg_views(self.messages@))
    }

    pub closed spec fn open_spec(&self) -> bool {
        self.is_open
    }

    pub closed spec fn manifest(&self) -> Option<BagMetadata> {
        self.metadata
    }

    pub closed spec fn conns(&self) -> Seq<ConnectionView> {
        conn_views(self.connections@)
    }

    /// All messages of the bag, ordered by timestamp.
    pub closed spec fn msgs(&self) -> Seq<MessageView> {
        msg_views(self.messages@)
    }

    /// A reader over the bag at `bag_path` whose manifest is `metadata`;
    /// the manifest must be one this library reads.
    pub fn new(bag_path: String, metadata: BagMetadata) -> (r: Result<Reader, BagError>)
        ensures
            r is Ok <==> manifest_valid(metadata.rosbag2_bagfile_information),
            r matches Err(e) ==> validation_error(metadata.rosbag2_bagfile_information, e),
            r matches Ok(rd) ==> rd.wf() && !rd.open_spec() && rd.manifest() == Some(metadata)
                && rd.conns().len() == 0 && rd.msgs().len() == 0,
    {
        metadata.validate()?;
        let rd = Reader {
            bag_path,
            metadata: Some(metadata),
            connections: Vec::new(),
            messages: Vec::new(),
            is_open: false,
        };
        proof {
            assert(conn_views(rd.connections@) =~= Seq::<ConnectionView>::empty());
            assert(msg_views(rd.messages@) =~= Seq::<MessageView>::empty());
        }
        Ok(rd)
    }

    /// The storage backend that the manifest selects.
    pub fn storage_plugin(&self) -> (r: Result<StoragePlugin, BagError>)
        ensures
            self.manifest() is None ==> r is Err,
            self.manifest() matches Some(m) ==> (match storage_choice(
                m.rosbag2_bagfile_information.storage_identifier@,
                m.rosbag2_bagfile_information.relative_file_paths@,
            ) {
                Some(p) => r == Ok::<StoragePlugin, BagError>(p),
                None => r is Err,
            }),
    {
        match &self.metadata {
            Some(m) => resolve_storage_plugin(
                m.rosbag2_bagfile_information.storage_identifier.as_str(),
                &m.rosbag2_bagfile_information.relative_file_paths,
            ),
            None => Err(BagError::MetadataNotFound { path: self.bag_path.clone() }),
        }
    }

    /// The storage files, relative to the bag directory.
    pub fn storage_paths(&self) -> (r: &[String])
        ensures
            self.manifest() matches Some(m) ==> r@ == m.rosbag2_bagfile_information.relative_file_paths@,
            self.manifest() is None ==> r@.len() == 0,
    {
        match &self.metadata {
            Some(m) => m.rosbag2_bagfile_information.relative_file_paths.as_slice(),
            None => &[],
        }
    }

    /// Open the bag on what its storage backend holds: connections from the
    /// manifest, merged with the backend's topics, given their definitions;
    /// the messages, each with its connection, ordered by timestamp.
    /// Opening an open bag does nothing.
    pub fn open(&mut self, contents: StorageContents) -> (r: Result<(), BagError>)
        requires
            old(self).wf(),
            old(self).manifest() matches Some(m)
                ==> m.rosbag2_bagfile_information.topics_with_message_count@.len()
                + contents.connections@.len() < u32::MAX,
        ensures
            final(self).wf(),
            final(self).manifest() == old(self).manifest(),
            old(self).open_spec() ==> r is Ok && *final(self) == *old(self),
            r is Err ==> *final(self) == *old(self),
            !old(self).open_spec() && old(self).manifest() is None ==> r is Err,
            !old(self).open_spec() ==> (old(self).manifest() matches Some(m) ==> opened(
                m.rosbag2_bagfile_information,
                contents,
                r is Ok,
                *final(self),
            )),
    {
        if self.is_open {
            return Ok(());
        }
        let info = match &self.metadata {
            Some(m) => &m.rosbag2_bagfile_information,
            None => {
                return Err(BagError::MetadataNotFound { path: self.bag_path.clone() });
            },
        };
        let plugin = resolve_storage_plugin(info.storage_identifier.as_str(), &info.relative_file_paths)?;
        let from_manifest = connections_from_manifest(info);
        proof {
            assert(conn_views(from_manifest@).len() == from_manifest@.len());
        }
        let mut connections = merge_connections(plugin, from_manifest, &contents.connections);
        apply_definitions(&mut connections, &contents.definitions);
        let attached = attach_connections(&connections, contents.messages)?;
        let messages = sort_by_timestamp(attached);
        self.connections = connections;
        self.messages = messages;
        self.is_open = true;
        Ok(())
    }

    /// Close the bag and release its messages. Closing a closed bag does
    /// nothing.
    pub fn close(&mut self) -> (r: Result<(), BagError>)
        requires
            old(self).wf(),
        ensures
            final(self).wf(),
            r is Ok,
            !final(self).open_spec(),
            final(self).manifest() == old(self).manifest(),
            final(self).conns() == old(self).conns(),
            old(self).open_spec() ==> final(self).msgs().len() == 0,
            !old(self).open_spec() ==> *final(self) == *old(self),
    {
        if !self.is_open {
            return Ok(());
        }
        self.messages = Vec::new();
        self.is_open = false;
        proof {
            assert(msg_views(self.messages@) =~= Seq::<MessageView>::empty());
        }
        Ok(())
    }

    /// The duration in nanoseconds, from the manifest.
    pub fn duration(&self) -> (r: u64)
        ensures
            r == (match self.manifest() {
                Some(m) => m.rosbag2_bagfile_information.duration.nanoseconds,
                None => 0,
            }),
    {
        match &self.metadata {
            Some(m) => m.duration(),
            None => 0,
        }
    }

    /// The start time in nanoseconds since the epoch, from the manifest.
    pub fn start_time(&self) -> (r: u64)
        ensures
            r == (match self.manifest() {
                Some(m) => m.rosbag2_bagfile_information.starting_time.nanoseconds_since_epoch,
                None => 0,
            }),
    {
        match &self.metadata {
            Some(m) => m.start_time(),
            None => 0,
        }
    }

    /// The end time in nanoseconds since the epoch, from the manifest.
    pub fn end_time(&self) -> (r: u64)
        ensures
            r == (match self.manifest() {
                Some(m) => end_time_of(m.rosbag2_bagfile_information),
                None => 0,
            }),
    {
        match &self.metadata {
            Some(m) => m.end_time(),
            None => 0,
        }
    }

    /// The total message count: once the bag is open, the sum of the counts
    /// of its connections, which the storage backend measured (held at the
    /// largest count should it not fit); before, the manifest's.
    pub fn message_count(&self) -> (r: u64)
        ensures
            !self.open_spec() ==> r == (match self.manifest() {
                Some(m) => m.rosbag2_bagfile_information.message_count,
                None => 0,
            }),
            self.open_spec() ==> r == (if connection_total(self.conns()) > u64::MAX {
                u64::MAX as int
            } else {
                connection_total(self.conns())
            }),
    {
        if !self.is_open {
            return match &self.metadata {
                Some(m) => m.message_count(),
                None => 0,
            };
        }
        let ghost cv = self.conns();
        let mut total: u64 = 0;
        let mut capped = false;
        let mut i: usize = 0;
        while i < self.connections.len()
            invariant
                i <= self.connections@.len(),
                cv == conn_views(self.connections@),
                capped ==> connection_total(cv.take(i as int)) > u64::MAX,
                !capped ==> total == connection_total(cv.take(i as int)),
            decreases self.connections@.len() - i,
        {
            proof {
                assert(cv.take(i + 1).drop_last() =~= cv.take(i as int));
                assert(cv.take(i + 1).last() == self.connections@[i as int]@);
                lemma_connection_total_nonneg(cv.take(i as int));
            }
            let c = self.connections[i].message_count;
            if !capped {
                if c > u64::MAX - total {
                    capped = true;
                } else {
                    total = total + c;
                }
            }
            i = i + 1;
        }
        proof {
            assert(cv.take(i as int) =~= cv);
        }
        if capped {
            u64::MAX
        } else {
            total
        }
    }

    /// The connections of the bag.
    pub fn connections(&self) -> (r: &[Connection])
        ensures
            conn_views(r@) == self.conns(),
    {
        self.connections.as_slice()
    }

    /// Whether the bag is open.
    pub fn is_open(&self) -> (r: bool)
        ensures
            r == self.open_spec(),
    {
        self.is_open
    }

    /// The manifest.
    pub fn metadata(&self) -> (r: Option<&BagMetadata>)
        ensures
            r matches Some(m) ==> self.manifest() == Some(*m),
            r is None ==> self.manifest() is None,
    {
        match &self.metadata {
            Some(m) => Some(m),
            None => None,
        }
    }

    /// The topics of an open bag, each with its connections and the sum of
    /// their counts (held at the largest count should it not fit); empty
    /// when the bag is not open.
    pub fn topics(&self) -> (r: Vec<TopicInfo>)
        ensures
            !self.open_spec() ==> r@.len() == 0,
            self.open_spec() && connection_total(self.conns()) <= u64::MAX ==> r@.map_values(
                |t: TopicInfo| topic_info_view(t),
            ) == group_by_topic(self.conns()),
    {
        let mut r: Vec<TopicInfo> = Vec::new();
        if !self.is_open {
            return r;
        }
        let ghost cv = self.conns();
        let ghost fits = connection_total(cv) <= u64::MAX;
        let mut i: usize = 0;
        while i < self.connections.len()
            invariant
                i <= self.connections@.len(),
                cv == conn_views(self.connections@),
                fits == (connection_total(cv) <= u64::MAX),
                fits ==> r@.map_values(|t: TopicInfo| topic_info_view(t)) == group_by_topic(
                    cv.take(i as int),
                ),
                fits ==> summary_total(group_by_topic(cv.take(i as int))) == connection_total(
                    cv.take(i as int),
                ),
                fits ==> connection_total(cv.take(i as int)) <= u64::MAX,
            decreases self.connections@.len() - i,
        {
            let c = &self.connections[i];
            let ghost before = r@;
            let ghost g = group_by_topic(cv.take(i as int));
            proof {
                assert(cv.take(i + 1).drop_last() =~= cv.take(i as int));
                assert(cv.take(i + 1).last() == c@);
                lemma_topic_counts_add_up(cv.take(i + 1));
                if fits {
                    lemma_prefix_total(cv, i + 1);
                }
            }
            let mut k: usize = 0;
            while k < r.len() && !(r[k].name == c.topic)
                invariant
                    k <= r@.len(),
                    r@ == before,
                    fits ==> r@.map_values(|t: TopicInfo| topic_info_view(t)) == g,
                    fits ==> find_summary(g, c.topic@, 0) == find_summary(g, c.topic@, k as int),
                decreases r@.len() - k,
            {
                proof {
                    if fits {
                        assert(g[k as int] == topic_info_view(r@[k as int]));
                    }
                }
                k = k + 1;
            }
            let found = k < r.len();
            if found {
                proof {
                    if fits {
                        assert(g[k as int] == topic_info_view(r@[k as int]));
                        lemma_summary_bound(g, k as int);
                    }
                }
                let mut t = r.remove(k);
                let sum = if c.message_count > u64::MAX - t.message_count {
                    u64::MAX
                } else {
                    t.message_count + c.message_count
                };
                t.message_count = sum;
                t.connections.push(c.duplicate());
                r.insert(k, t);
                proof {
                    if fits {
                        let f = |x: TopicInfo| topic_info_view(x);
                        assert(conn_views(t.connections@) =~= g[k as int].connections.push(c@));
                        assert(r@ =~= before.update(k as int, t));
                        assert(r@.map_values(f) =~= g.update(
                            k as int,
                            TopicInfoView {
                                message_count: g[k as int].message_count + c@.message_count,
                                connections: g[k as int].connections.push(c@),
                                ..g[k as int]
                            },
                        ));
                    }
                }
            } else {
                let mut conns: Vec<Connection> = Vec::new();
                conns.push(c.duplicate());
                let t = TopicInfo {
                    name: c.topic.clone(),
                    message_type: c.message_type.clone(),
                    message_definition: c.message_definition.duplicate(),
                    message_count: c.message_count,
                    connections: conns,
                };
                r.push(t);
                proof {
                    if fits {
                        let f = |x: TopicInfo| topic_info_view(x);
                        assert(conn_views(t.connections@) =~= seq![c@]);
                        assert(r@.map_values(f) =~= g.push(topic_info_view(t)));
                    }
                }
            }
            i = i + 1;
        }
        proof {
            assert(cv.take(i as int) =~= cv);
        }
        r
    }

    /// The messages of an open bag whose topic is among those of
    /// `connections` (all topics when it is absent or empty) and whose
    /// timestamp lies in `[start, stop)`, ordered by timestamp.
    pub fn messages_filtered(
        &self,
        connections: Option<&[Connection]>,
        start: Option<u64>,
        stop: Option<u64>,
    ) -> (r: Result<Vec<Message>, BagError>)
        requires
            self.wf(),
        ensures
            !self.open_spec() ==> r == Err::<Vec<Message>, BagError>(BagError::BagNotOpen),
            self.open_spec() ==> (r matches Ok(v) && msg_views(v@) == filtered(
                self.msgs(),
                filter_view(connections),
                start,
                stop,
            )),
            r matches Ok(v) ==> sorted_by_time(msg_views(v@)),
            r matches Ok(v) ==> forall|i: int|
                0 <= i < v@.len() ==> selected(
                    #[trigger] msg_views(v@)[i],
                    filter_view(connections),
                    start,
                    stop,
                ),
    {
        if !self.is_open {
            return Err(BagError::BagNotOpen);
        }
        let ghost fv = filter_view(connections);
        let ghost all = self.msgs();
        let ghost pred = |m: MessageView| selected(m, fv, start, stop);
        let mut r: Vec<Message> = Vec::new();
        let mut i: usize = 0;
        while i < self.messages.len()
            invariant
                i <= self.messages@.len(),
                all == msg_views(self.messages@),
                fv == filter_view(connections),
                pred == (|m: MessageView| selected(m, fv, start, stop)),
                msg_views(r@) == all.take(i as int).filter(pred),
            decreases self.messages@.len() - i,
        {
            let m = &self.messages[i];
            let topic_ok = match connections {
                None => true,
                Some(cs) => {
                    let listed = cs.len() == 0 || topic_listed(cs, &m.topic);
                    proof {
                        let cv = cs@.map_values(|c: Connection| c@);
                        if cs@.len() > 0 {
                            if listed {
                                let w = choose|w: int| 0 <= w < cs@.len() && #[trigger] cs@[w].topic@ == m.topic@;
                                assert(cv[w].topic == m.topic@);
                            } else {
                                assert forall|w: int| 0 <= w < cv.len() implies #[trigger] cv[w].topic
                                    != m.topic@ by {
                                    assert(cv[w] == cs@[w]@);
                                }
                            }
                        }
                    }
                    listed
                },
            };
            let window_ok = (match start {
                Some(a) => a <= m.timestamp,
                None => true,
            }) && (match stop {
                Some(b) => m.timestamp < b,
                None => true,
            });
            proof {
                reveal(Seq::filter);
                assert(all[i as int] == m@);
                assert(all.take(i + 1).drop_last() =~= all.take(i as int));
                assert(all.take(i + 1).last() == m@);
                assert(topic_ok == topic_selected(fv, m.topic@));
                assert((topic_ok && window_ok) == pred(m@));
            }
            if topic_ok && window_ok {
                let ghost before = r@;
                r.push(m.duplicate());
                proof {
                    assert(msg_views(r@) =~= msg_views(before).push(m@));
                }
            }
            i = i + 1;
        }
        proof {
            assert(all.take(i as int) =~= all);
            lemma_filter_sorted(all, pred);
            lemma_filter_selects(all, fv, start, stop);
        }
        Ok(r)
    }

    /// All messages of an open bag, ordered by timestamp.
    pub fn messages(&self) -> (r: Result<Vec<Message>, BagError>)
        requires
            self.wf(),
        ensures
            !self.open_spec() ==> r == Err::<Vec<Message>, BagError>(BagError::BagNotOpen),
            self.open_spec() ==> (r matches Ok(v) && msg_views(v@) == self.msgs()),
            r matches Ok(v) ==> sorted_by_time(msg_views(v@)),
    {
        let r = self.messages_filtered(None, None, None);
        proof {
            reveal(Seq::filter);
            lemma_filter_all(self.msgs());
        }
        r
    }
}

/// Sum of the message counts of a manifest's topics.
pub open spec fn manifest_topic_total(info: BagFileInformation) -> int {
    crate::writer::sum(
        info.topics_with_message_count@.map_values(|t: crate::metadata::TopicWithMessageCount| t.message_count),
    )
}

proof fn lemma_connection_total_of_counts(cs: Seq<ConnectionView>, counts: Seq<u64>)
    requires
        cs.len() == counts.len(),
        forall|i: int| 0 <= i < cs.len() ==> #[trigger] cs[i].message_count == counts[i],
    ensures
        connection_total(cs) == crate::writer::sum(counts),
    decreases cs.len(),
{
    if cs.len() > 0 {
        lemma_connection_total_of_counts(cs.drop_last(), counts.drop_last());
    }
}

/// For a reader whose connections are those of its manifest (a backend
/// that reported no topics of its own), and a manifest whose per-topic
/// counts add up to its message count (as the writer's do), the per-topic
/// counts that `topics` reports add up to the message count.
pub proof fn lemma_reader_topic_counts_match_manifest(rd: Reader, info: BagFileInformation)
    requires
        rd.conns() == manifest_connections(info),
        manifest_topic_total(info) == info.message_count,
    ensures
        summary_total(group_by_topic(rd.conns())) == info.message_count,
{
    lemma_topic_counts_add_up(rd.conns());
    let counts = info.topics_with_message_count@.map_values(
        |t: crate::metadata::TopicWithMessageCount| t.message_count,
    );
    lemma_connection_total_of_counts(manifest_connections(info), counts);
}

/// Number of messages of `s` on topic `t`.
pub open spec fn count_topic(s: Seq<MessageView>, t: Seq<char>) -> nat {
    s.filter(|m: MessageView| m.topic == t).len()
}

/// Filtering by connections whose topics are exactly two distinct topics
/// yields as many messages as the two topics hold together.
pub proof fn lemma_two_topic_filter_count(
    s: Seq<MessageView>,
    cs: Seq<ConnectionView>,
    t1: Seq<char>,
    t2: Seq<char>,
)
    requires
        t1 != t2,
        exists|i: int| 0 <= i < cs.len() && #[trigger] cs[i].topic == t1,
        exists|i: int| 0 <= i < cs.len() && #[trigger] cs[i].topic == t2,
        forall|i: int| 0 <= i < cs.len() ==> #[trigger] cs[i].topic == t1 || cs[i].topic == t2,
    ensures
        filtered(s, Some(cs), None, None).len() == count_topic(s, t1) + count_topic(s, t2),
    decreases s.len(),
{
    reveal(Seq::filter);
    if s.len() > 0 {
        lemma_two_topic_filter_count(s.drop_last(), cs, t1, t2);
        let m = s.last();
        if m.topic == t1 || m.topic == t2 {
            assert(topic_selected(Some(cs), m.topic));
        } else {
            if cs.len() > 0 {
                assert forall|i: int| 0 <= i < cs.len() implies #[trigger] cs[i].topic != m.topic by {}
            }
            assert(!topic_selected(Some(cs), m.topic));
        }
    }
}

/// The schema version of a relational storage file: the recorded one when
/// the file has a schema table, else 2 when its topics table has the QoS
/// column, else 1.
pub fn relational_schema_version(recorded: Option<u32>, has_qos_column: bool) -> (r: u32)
    ensures
        r == (match recorded {
            Some(v) => v,
            None => if has_qos_column {
                2u32
            } else {
                1u32
            },
        }),
{
    match recorded {
        Some(v) => v,
        None => if has_qos_column {
            2
        } else {
            1
        },
    }
}

proof fn lemma_connection_total_nonneg(cs: Seq<ConnectionView>)
    ensures
        connection_total(cs) >= 0,
    decreases cs.len(),
{
    if cs.len() > 0 {
        lemma_connection_total_nonneg(cs.drop_last());
    }
}

/// The per-topic counts that an open reader reports add up to its message
/// count: `topics` groups the connections and `message_count` sums their
/// counts, whenever that sum fits.
pub proof fn lemma_open_reader_counts_add_up(rd: Reader)
    requires
        rd.open_spec(),
        connection_total(rd.conns()) <= u64::MAX,
    ensures
        summary_total(group_by_topic(rd.conns())) == connection_total(rd.conns()),
{
    lemma_topic_counts_add_up(rd.conns());
}

} // verus!
