//! The merged list of servers that are reachable through all gateways.
use crate::config;
use crate::config::{has_name, DirectAuth, ServerEntry, ServerListRow, ServerListSource};
use crate::gateway::{ErrorKind, GatewayError, GatewayKind};
use crate::lists;
use crate::reverse;
use crate::reverse::ReverseProxyNodeStatus;
use crate::text;
use crate::text::{concat3, same};
use vstd::prelude::*;

verus! {

// ---------------------------------------------------------------------------
// Sources
// ---------------------------------------------------------------------------
/// The source of a server that a gateway lists under a source of its own: what is local to
/// the remote daemon is the gateway's, the rest lies behind it.
pub open spec fn prefixed(gateway: Seq<char>, remote: Seq<char>) -> config::SourceView {
    if remote == "local"@ || remote.len() == 0 {
        config::SourceView::Gateway(gateway)
    } else {
        config::SourceView::Gateway(gateway + ":"@ + remote)
    }
}

/// Put a gateway's name before a remote source.
pub fn prefix_source(gateway_name: &str, remote_source: &str) -> (r: ServerListSource)
    ensures
        r@ == prefixed(gateway_name@, remote_source@),
{
    if same(remote_source, "local") || remote_source.is_empty() {
        ServerListSource::Gateway(gateway_name.to_owned())
    } else {
        ServerListSource::Gateway(concat3(gateway_name, ":", remote_source))
    }
}

/// The tag of a configured gateway.
pub open spec fn source_tag(name: Seq<char>) -> config::SourceView {
    if name == "local"@ {
        config::SourceView::Local
    } else {
        config::SourceView::Gateway(name)
    }
}

fn make_source(name: &str) -> (r: ServerListSource)
    ensures
        r@ == source_tag(name@),
{
    if same(name, "local") {
        ServerListSource::Local
    } else {
        ServerListSource::Gateway(name.to_owned())
    }
}

// ---------------------------------------------------------------------------
// A remote daemon's answer
// ---------------------------------------------------------------------------
/// A row of a remote daemon's merged list. The server may be missing.
#[derive(Debug)]
pub struct RemoteRow {
    pub server: Option<ServerEntry>,
    pub source: String,
}

/// The rows that a remote daemon's merged list stands for, without those that name no server.
pub open spec fn merged_rows(gateway: Seq<char>, rows: Seq<RemoteRow>) -> Seq<config::RowView>
    decreases rows.len(),
{
    if rows.len() == 0 {
        Seq::empty()
    } else {
        let before = merged_rows(gateway, rows.drop_last());
        match rows.last().server {
            Some(s) => before.push(
                config::RowView { source: prefixed(gateway, rows.last().source@), server: s@ },
            ),
            None => before,
        }
    }
}

/// The rows of a flat list, which are all the gateway's own.
pub open spec fn flat_rows(gateway: Seq<char>, servers: Seq<ServerEntry>) -> Seq<config::RowView> {
    Seq::new(
        servers.len(),
        |i: int|
            config::RowView {
                source: config::SourceView::Gateway(gateway),
                server: servers[i]@,
            },
    )
}

/// The rows of a remote daemon's answer. The merged list counts where it holds anything;
/// else the flat one does.
pub open spec fn answered_rows(
    gateway: Seq<char>,
    merged: Option<Vec<RemoteRow>>,
    servers: Seq<ServerEntry>,
) -> Seq<config::RowView> {
    if merged is Some && merged->0@.len() > 0 {
        merged_rows(gateway, merged->0@)
    } else {
        flat_rows(gateway, servers)
    }
}

/// The rows of a remote daemon's answer.
#[verifier::loop_isolation(false)]
pub fn remote_rows(
    gateway_name: &str,
    merged: Option<Vec<RemoteRow>>,
    servers: Vec<ServerEntry>,
) -> (r: Vec<ServerListRow>)
    ensures
        lists::views(r@) == answered_rows(gateway_name@, merged, servers@),
{
    let mut r: Vec<ServerListRow> = Vec::new();
    if let Some(rows) = merged {
        if rows.len() > 0 {
            let ghost all = rows@;
            let mut rest = rows;
            let ghost mut done: int = 0;
            assert(all.take(0) =~= Seq::<RemoteRow>::empty());
            assert(lists::views(r@) =~= Seq::<config::RowView>::empty());
            while rest.len() > 0
                invariant
                    0 <= done <= all.len(),
                    rest@ == all.skip(done),
                    lists::views(r@) == merged_rows(gateway_name@, all.take(done)),
                decreases rest.len(),
            {
                let row = rest.remove(0);
                let ghost before = lists::views(r@);
                assert(row == all[done]);
                assert(all.take(done + 1).drop_last() =~= all.take(done));
                if let Some(server) = row.server {
                    let source = prefix_source(gateway_name, row.source.as_str());
                    let listed = ServerListRow { source, server };
                    r.push(listed);
                    assert(lists::views(r@) =~= before.push(listed@));
                }
                proof {
                    done = done + 1;
                    assert(rest@ =~= all.skip(done));
                }
            }
            assert(all.take(done) =~= all);
            return r;
        }
    }
    let ghost all = servers@;
    let mut rest = servers;
    let ghost mut done: int = 0;
    while rest.len() > 0
        invariant
            0 <= done <= all.len(),
            rest@ == all.skip(done),
            lists::views(r@) == flat_rows(gateway_name@, all).take(done),
        decreases rest.len(),
    {
        let server = rest.remove(0);
        assert(server == all[done]);
        let listed = ServerListRow {
            source: ServerListSource::Gateway(gateway_name.to_owned()),
            server,
        };
        r.push(listed);
        proof {
            done = done + 1;
            assert(rest@ =~= all.skip(done));
            assert(lists::views(r@) =~= flat_rows(gateway_name@, all).take(done));
        }
    }
    assert(flat_rows(gateway_name@, all).take(done) =~= flat_rows(gateway_name@, all));
    r
}

// ---------------------------------------------------------------------------
// Aggregation
// ---------------------------------------------------------------------------
/// What came of asking a gateway for its servers.
#[derive(Debug)]
pub enum ListOutcome {
    Rows(Vec<ServerListRow>),
    Failed(GatewayError),
    TimedOut,
}

/// How a source fared.
#[derive(Debug)]
pub enum ServerListSourceStatus {
    Reached,
    Unsupported,
    Error(String),
}

/// The mathematical counterpart of [`ServerListSourceStatus`].
pub enum StatusView {
    Reached,
    Unsupported,
    Error(Seq<char>),
}

/// A source and how it fared.
#[derive(Debug)]
pub struct SourceReport {
    pub source: ServerListSource,
    pub status: ServerListSourceStatus,
}

impl View for SourceReport {
    type V = (config::SourceView, StatusView);

    open spec fn view(&self) -> (config::SourceView, StatusView) {
        (
            self.source@,
            match self.status {
                ServerListSourceStatus::Reached => StatusView::Reached,
                ServerListSourceStatus::Unsupported => StatusView::Unsupported,
                ServerListSourceStatus::Error(e) => StatusView::Error(e@),
            },
        )
    }
}

/// The answer of a configured gateway.
#[derive(Debug)]
pub struct GatewayAnswer {
    pub name: String,
    pub kind: GatewayKind,
    pub outcome: ListOutcome,
}

/// The answer of a connected node; none if the node left meanwhile.
#[derive(Debug)]
pub struct NodeAnswer {
    pub node: ReverseProxyNodeStatus,
    pub outcome: Option<ListOutcome>,
}

/// The servers of a list, and how its sources fared.
pub struct Merged {
    pub rows: Seq<config::RowView>,
    pub reports: Seq<(config::SourceView, StatusView)>,
}

/// The rows that an outcome brings.
pub open spec fn rows_of(outcome: ListOutcome) -> Seq<config::RowView> {
    match outcome {
        ListOutcome::Rows(rows) => lists::views(rows@),
        _ => Seq::empty(),
    }
}

/// How a source fared, by its outcome. Only a configured gateway may do without listing.
pub open spec fn status_of(outcome: ListOutcome, may_decline: bool) -> StatusView {
    match outcome {
        ListOutcome::Rows(_) => StatusView::Reached,
        ListOutcome::Failed(e) => if may_decline && e.kind == ErrorKind::Unsupported {
            StatusView::Unsupported
        } else {
            StatusView::Error(e.text())
        },
        ListOutcome::TimedOut => StatusView::Error("timeout"@),
    }
}

/// Whether a gateway is asked. A request that came from another daemon does not go on to
/// other daemons, which might lead back here.
pub open spec fn is_asked(kind: GatewayKind, no_recurse: bool) -> bool {
    !(no_recurse && kind == GatewayKind::Xhod)
}

/// Whether to ask a configured gateway for its servers.
pub fn asks_gateway(kind: GatewayKind, no_recurse: bool) -> (r: bool)
    ensures
        r == is_asked(kind, no_recurse),
{
    !(no_recurse && kind == GatewayKind::Xhod)
}

/// What configured gateways contribute, in their order.
pub open spec fn from_gateways(answers: Seq<GatewayAnswer>, no_recurse: bool) -> Merged
    decreases answers.len(),
{
    if answers.len() == 0 {
        Merged { rows: Seq::empty(), reports: Seq::empty() }
    } else {
        let m = from_gateways(answers.drop_last(), no_recurse);
        let a = answers.last();
        if is_asked(a.kind, no_recurse) {
            Merged {
                rows: m.rows + rows_of(a.outcome),
                reports: m.reports.push((source_tag(a.name@), status_of(a.outcome, true))),
            }
        } else {
            m
        }
    }
}

/// A connected node as a server of its own.
pub open spec fn node_row(node: reverse::NodeView) -> config::RowView {
    config::RowView {
        source: config::SourceView::Local,
        server: config::EntryView {
            alias: node.name,
            host: if node.hostname.len() == 0 {
                node.name
            } else {
                node.hostname
            },
            port: 0,
            user: node.user,
            auth: config::AuthView::ReverseProxy,
        },
    }
}

/// What connected nodes contribute: themselves, and what they list.
pub open spec fn with_nodes(m: Merged, answers: Seq<NodeAnswer>) -> Merged
    decreases answers.len(),
{
    if answers.len() == 0 {
        m
    } else {
        let m = with_nodes(m, answers.drop_last());
        let a = answers.last();
        Merged {
            rows: m.rows.push(node_row(a.node@)) + match a.outcome {
                Some(o) => rows_of(o),
                None => Seq::empty(),
            },
            reports: m.reports.push(
                (
                    config::SourceView::Gateway(a.node.name@),
                    match a.outcome {
                        Some(o) => status_of(o, false),
                        None => StatusView::Reached,
                    },
                ),
            ),
        }
    }
}

fn take_outcome(outcome: ListOutcome, may_decline: bool, rows: &mut Vec<ServerListRow>) -> (r:
    ServerListSourceStatus)
    ensures
        lists::views(final(rows)@) == lists::views(old(rows)@) + rows_of(outcome),
        match r {
            ServerListSourceStatus::Reached => status_of(outcome, may_decline)
                == StatusView::Reached,
            ServerListSourceStatus::Unsupported => status_of(outcome, may_decline)
                == StatusView::Unsupported,
            ServerListSourceStatus::Error(e) => status_of(outcome, may_decline)
                == StatusView::Error(e@),
        },
{
    match outcome {
        ListOutcome::Rows(found) => {
            let ghost added = found@;
            let mut found = found;
            rows.append(&mut found);
            assert(lists::views(rows@) =~= lists::views(old(rows)@) + lists::views(added));
            ServerListSourceStatus::Reached
        },
        ListOutcome::Failed(e) => {
            assert(lists::views(rows@) =~= lists::views(old(rows)@) + rows_of(outcome));
            if may_decline && e.kind == ErrorKind::Unsupported {
                ServerListSourceStatus::Unsupported
            } else {
                ServerListSourceStatus::Error(e.to_text())
            }
        },
        ListOutcome::TimedOut => {
            assert(lists::views(rows@) =~= lists::views(old(rows)@) + rows_of(outcome));
            ServerListSourceStatus::Error("timeout".to_owned())
        },
    }
}

/// Merge what configured gateways and connected nodes answered. Configured gateways come
/// first, in their order; each node stands for itself as a server before what it lists.
#[verifier::loop_isolation(false)]
pub fn process_list_servers(
    gateways: Vec<GatewayAnswer>,
    nodes: Vec<NodeAnswer>,
    no_recurse: bool,
) -> (r: (Vec<ServerListRow>, Vec<SourceReport>))
    ensures
        ({
            let m = with_nodes(from_gateways(gateways@, no_recurse), nodes@);
            lists::views(r.0@) == m.rows && lists::views(r.1@) == m.reports
        }),
{
    let mut rows: Vec<ServerListRow> = Vec::new();
    let mut reports: Vec<SourceReport> = Vec::new();
    let ghost all = gateways@;
    let mut rest = gateways;
    let ghost mut done: int = 0;
    assert(all.take(0) =~= Seq::<GatewayAnswer>::empty());
    assert(lists::views(rows@) =~= Seq::<config::RowView>::empty());
    assert(lists::views(reports@) =~= Seq::<(config::SourceView, StatusView)>::empty());
    while rest.len() > 0
        invariant
            0 <= done <= all.len(),
            rest@ == all.skip(done),
            lists::views(rows@) == from_gateways(all.take(done), no_recurse).rows,
            lists::views(reports@) == from_gateways(all.take(done), no_recurse).reports,
        decreases rest.len(),
    {
        let answer = rest.remove(0);
        assert(answer == all[done]);
        assert(all.take(done + 1).drop_last() =~= all.take(done));
        if asks_gateway(answer.kind, no_recurse) {
            let source = make_source(answer.name.as_str());
            let status = take_outcome(answer.outcome, true, &mut rows);
            let ghost before = lists::views(reports@);
            let report = SourceReport { source, status };
            reports.push(report);
            assert(lists::views(reports@) =~= before.push(report@));
        }
        proof {
            done = done + 1;
            assert(rest@ =~= all.skip(done));
        }
    }
    assert(all.take(done) =~= all);
    let ghost m = from_gateways(all, no_recurse);
    let ghost all_nodes = nodes@;
    let mut rest = nodes;
    let ghost mut done: int = 0;
    assert(all_nodes.take(0) =~= Seq::<NodeAnswer>::empty());
    while rest.len() > 0
        invariant
            0 <= done <= all_nodes.len(),
            rest@ == all_nodes.skip(done),
            lists::views(rows@) == with_nodes(m, all_nodes.take(done)).rows,
            lists::views(reports@) == with_nodes(m, all_nodes.take(done)).reports,
        decreases rest.len(),
    {
        let answer = rest.remove(0);
        assert(answer == all_nodes[done]);
        assert(all_nodes.take(done + 1).drop_last() =~= all_nodes.take(done));
        let node = answer.node;
        let host = if node.hostname.as_str().is_empty() {
            node.name.clone()
        } else {
            node.hostname.clone()
        };
        let ghost before_rows = lists::views(rows@);
        let own = ServerListRow {
            source: ServerListSource::Local,
            server: ServerEntry {
                alias: node.name.clone(),
                host,
                port: 0,
                user: node.user.clone(),
                auth: DirectAuth::ReverseProxy,
            },
        };
        assert(own@ =~= node_row(node@));
        rows.push(own);
        assert(lists::views(rows@) =~= before_rows.push(node_row(node@)));
        let ghost mid = lists::views(rows@);
        let status = match answer.outcome {
            Some(o) => take_outcome(o, false, &mut rows),
            None => {
                assert(mid + Seq::<config::RowView>::empty() =~= mid);
                ServerListSourceStatus::Reached
            },
        };
        let ghost before = lists::views(reports@);
        let report = SourceReport {
            source: ServerListSource::Gateway(node.name.clone()),
            status,
        };
        reports.push(report);
        assert(lists::views(reports@) =~= before.push(report@));
        proof {
            done = done + 1;
            assert(rest@ =~= all_nodes.skip(done));
        }
    }
    assert(all_nodes.take(done) =~= all_nodes);
    (rows, reports)
}

/// Which servers of a list are connected nodes by their alias, for the answer to a client.
pub fn reverse_nodes(rows: &[ServerListRow], node_names: &[String]) -> (r: Vec<bool>)
    ensures
        r@ == Seq::new(
            rows@.len(),
            |i: int| text::texts(node_names@).contains(rows@[i].server.alias@),
        ),
{
    let mut r: Vec<bool> = Vec::new();
    let mut i: usize = 0;
    while i < rows.len()
        invariant
            i <= rows.len(),
            r@ == Seq::new(
                i as nat,
                |j: int| text::texts(node_names@).contains(rows@[j].server.alias@),
            ),
        decreases rows.len() - i,
    {
        r.push(has_name(node_names, rows[i].server.alias.as_str()));
        i += 1;
        assert(r@ =~= Seq::new(
            i as nat,
            |j: int| text::texts(node_names@).contains(rows@[j].server.alias@),
        ));
    }
    r
}

// ---------------------------------------------------------------------------
// What holds of every list
// ---------------------------------------------------------------------------
/// How many configured gateways are asked.
pub open spec fn asked(answers: Seq<GatewayAnswer>, no_recurse: bool) -> nat
    decreases answers.len(),
{
    if answers.len() == 0 {
        0
    } else {
        asked(answers.drop_last(), no_recurse) + if is_asked(answers.last().kind, no_recurse) {
            1nat
        } else {
            0nat
        }
    }
}

/// Every source that is asked gets exactly one report: the configured gateways first, then
/// the nodes.
pub proof fn law_every_source_is_reported(
    gateways: Seq<GatewayAnswer>,
    nodes: Seq<NodeAnswer>,
    no_recurse: bool,
)
    ensures
        with_nodes(from_gateways(gateways, no_recurse), nodes).reports.len() == asked(
            gateways,
            no_recurse,
        ) + nodes.len(),
    decreases gateways.len() + nodes.len(),
{
    if nodes.len() > 0 {
        law_every_source_is_reported(gateways, nodes.drop_last(), no_recurse);
    } else if gateways.len() > 0 {
        law_every_source_is_reported(gateways.drop_last(), nodes, no_recurse);
    }
}

/// The answers without those of other daemons.
pub open spec fn without_daemons(answers: Seq<GatewayAnswer>) -> Seq<GatewayAnswer>
    decreases answers.len(),
{
    if answers.len() == 0 {
        Seq::empty()
    } else if answers.last().kind == GatewayKind::Xhod {
        without_daemons(answers.drop_last())
    } else {
        without_daemons(answers.drop_last()).push(answers.last())
    }
}

/// A request that must not go on is answered as if there were no gateways to other daemons.
pub proof fn law_no_recursion_through_daemons(gateways: Seq<GatewayAnswer>)
    ensures
        from_gateways(gateways, true) == from_gateways(without_daemons(gateways), false),
    decreases gateways.len(),
{
    if gateways.len() > 0 {
        law_no_recursion_through_daemons(gateways.drop_last());
        if gateways.last().kind != GatewayKind::Xhod {
            let w = without_daemons(gateways);
            assert(w.drop_last() =~= without_daemons(gateways.drop_last()));
            assert(w.last() == gateways.last());
        }
    }
}

// ---------------------------------------------------------------------------
// What a merged list holds
// ---------------------------------------------------------------------------
/// The row that a remote row becomes behind a gateway: its server as it is, and its source
/// behind the gateway's name, unless the server is the remote side's own.
pub open spec fn seen_through(gateway: Seq<char>) -> spec_fn(RemoteRow) -> Option<config::RowView> {
    |row: RemoteRow|
        match row.server {
            None => None,
            Some(s) => Some(
                config::RowView {
                    source: config::SourceView::Gateway(
                        if row.source@.len() == 0 || row.source@ == seq!['l', 'o', 'c', 'a', 'l'] {
                            gateway
                        } else {
                            gateway + seq![':'] + row.source@
                        },
                    ),
                    server: s@,
                },
            ),
        }
}

/// Each remote row that holds a server is listed, in order, and nothing else.
pub proof fn law_remote_rows_are_listed(gateway: Seq<char>, rows: Seq<RemoteRow>)
    ensures
        merged_rows(gateway, rows) == lists::picked(rows, seen_through(gateway)),
    decreases rows.len(),
{
    reveal_strlit("local");
    reveal_strlit(":");
    assert("local"@ =~= seq!['l', 'o', 'c', 'a', 'l']);
    assert(":"@ =~= seq![':']);
    if rows.len() > 0 {
        law_remote_rows_are_listed(gateway, rows.drop_last());
        assert(merged_rows(gateway, rows) =~= lists::picked(rows, seen_through(gateway)));
    }
}

/// A daemon that answers with rows has these listed; an older one that answers with servers
/// alone has each of them listed under the gateway's name, in order.
pub proof fn law_all_servers_are_listed(
    gateway: Seq<char>,
    merged: Option<Vec<RemoteRow>>,
    servers: Seq<ServerEntry>,
)
    ensures
        ({
            let rows = answered_rows(gateway, merged, servers);
            match merged {
                Some(answer) if answer@.len() > 0 => rows == lists::picked(
                    answer@,
                    seen_through(gateway),
                ),
                _ => {
                    &&& rows.len() == servers.len()
                    &&& forall|i: int|
                        0 <= i < servers.len() ==> (#[trigger] rows[i]).server == servers[i]@
                            && rows[i].source == config::SourceView::Gateway(gateway)
                },
            }
        }),
{
    if merged is Some {
        law_remote_rows_are_listed(gateway, merged->0@);
    }
}

/// How an answer is reported. Only a gateway may say that it cannot list.
pub open spec fn reported_as(outcome: ListOutcome, may_decline: bool, status: StatusView) -> bool {
    match outcome {
        ListOutcome::Rows(_) => status is Reached,
        ListOutcome::TimedOut => status == StatusView::Error("timeout"@),
        ListOutcome::Failed(e) => if e.kind is Unsupported && may_decline {
            status is Unsupported
        } else {
            status == StatusView::Error(e.text())
        },
    }
}

/// Each gateway that is asked adds its rows behind those of the others, and one report under
/// its name. A daemon is not asked where the list must not go on to others.
pub proof fn law_gateways_add_their_rows(
    answers: Seq<GatewayAnswer>,
    a: GatewayAnswer,
    no_recurse: bool,
)
    ensures
        ({
            let before = from_gateways(answers, no_recurse);
            let after = from_gateways(answers.push(a), no_recurse);
            let own = a.name@ == seq!['l', 'o', 'c', 'a', 'l'];
            if no_recurse && a.kind is Xhod {
                after == before
            } else {
                &&& a.outcome matches ListOutcome::Rows(rows) ==> after.rows == before.rows
                    + lists::views(rows@)
                &&& !(a.outcome is Rows) ==> after.rows == before.rows
                &&& after.reports.drop_last() == before.reports
                &&& after.reports.len() == before.reports.len() + 1
                &&& own ==> after.reports.last().0 is Local
                &&& !own ==> after.reports.last().0 == config::SourceView::Gateway(a.name@)
                &&& reported_as(a.outcome, true, after.reports.last().1)
            }
        }),
        from_gateways(Seq::empty(), no_recurse).rows.len() == 0,
        from_gateways(Seq::empty(), no_recurse).reports.len() == 0,
{
    reveal_strlit("local");
    assert("local"@ =~= seq!['l', 'o', 'c', 'a', 'l']);
    assert(answers.push(a).drop_last() =~= answers);
    let before = from_gateways(answers, no_recurse);
    assert(before.rows + Seq::<config::RowView>::empty() =~= before.rows);
    let after = from_gateways(answers.push(a), no_recurse);
    if is_asked(a.kind, no_recurse) {
        assert(after.reports.drop_last() =~= before.reports);
    }
}

/// Each node adds a row of its own and the rows that it answered with, and one report. Its own
/// row tells its host and user; it stands for its host where that is not known.
pub proof fn law_nodes_add_their_rows(m: Merged, answers: Seq<NodeAnswer>, a: NodeAnswer)
    ensures
        ({
            let before = with_nodes(m, answers);
            let after = with_nodes(m, answers.push(a));
            let n = before.rows.len() as int;
            let own = after.rows[n];
            let host = a.node.hostname@;
            &&& after.rows.take(n) == before.rows
            &&& after.rows.len() > n
            &&& own.source is Local
            &&& own.server.alias == a.node.name@
            &&& own.server.host == if host.len() > 0 {
                host
            } else {
                a.node.name@
            }
            &&& own.server.user == a.node.user@
            &&& own.server.auth is ReverseProxy
            &&& after.rows.skip(n + 1) == match a.outcome {
                Some(ListOutcome::Rows(rows)) => lists::views(rows@),
                _ => Seq::empty(),
            }
            &&& after.reports.drop_last() == before.reports
            &&& after.reports.len() == before.reports.len() + 1
            &&& after.reports.last().0 == config::SourceView::Gateway(a.node.name@)
            &&& match a.outcome {
                Some(outcome) => reported_as(outcome, false, after.reports.last().1),
                None => after.reports.last().1 is Reached,
            }
        }),
        with_nodes(m, Seq::empty()) == m,
{
    assert(answers.push(a).drop_last() =~= answers);
    let before = with_nodes(m, answers);
    let after = with_nodes(m, answers.push(a));
    let n = before.rows.len() as int;
    assert(after.rows.take(n) =~= before.rows);
    assert(after.reports.drop_last() =~= before.reports);
    match a.outcome {
        Some(ListOutcome::Rows(rows)) => {
            assert(after.rows.skip(n + 1) =~= lists::views(rows@));
        },
        _ => {
            assert(after.rows.skip(n + 1) =~= Seq::<config::RowView>::empty());
        },
    }
}

} // verus!
