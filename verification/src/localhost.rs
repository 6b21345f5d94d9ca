//! The gateway to this machine itself.
use crate::config;
use crate::config::{DirectAuth, ServerEntry, ServerListRow, ServerListSource};
use crate::direct;
use crate::direct::choose_shell;
use crate::gateway::{Capabilities, Gateway, GatewayError, GatewayKind};
use crate::lists;
use crate::lists::one;
use crate::output;
use crate::output::decode_lossy;
use crate::search;
use crate::search::bytes_until;
use crate::shell;
use crate::shell::build_final_command;
use crate::text;
use vstd::prelude::*;

verus! {

/// The name that is reserved for this machine.
pub const SELF_GATEWAY_NAME: &'static str = "_self";

/// What the machine says of itself.
#[derive(Debug)]
pub struct HostEnvironment {
    /// The variable `SHELL`.
    pub shell: Option<String>,
    /// The variable `USER`.
    pub user: Option<String>,
    /// The variable `LOGNAME`.
    pub logname: Option<String>,
    /// The buffer that holds the host name up to the first zero byte, if it could be read.
    pub hostname: Option<Vec<u8>>,
}

/// The host name in a buffer.
pub open spec fn hostname_of(buffer: Option<Seq<u8>>) -> Seq<char> {
    match buffer {
        Some(b) => output::lossy_text(b.take(search::until(b, 0u8))),
        None => "localhost"@,
    }
}

/// Read the host name out of a buffer.
pub fn hostname_from(buffer: Option<&[u8]>) -> (r: String)
    ensures
        r@ == hostname_of(
            match buffer {
                Some(b) => Some(b@),
                None => None,
            },
        ),
{
    match buffer {
        Some(b) => {
            let n: usize = bytes_until(b, 0);
            let head = vstd::slice::slice_subrange(b, 0, n);
            assert(head@ =~= b@.take(n as int));
            decode_lossy(head)
        },
        None => "localhost".to_owned(),
    }
}

/// The first of some texts that is there, else a default.
pub open spec fn first_of(a: Option<String>, b: Option<String>, default: Seq<char>) -> Seq<char> {
    match a {
        Some(s) => s@,
        None => match b {
            Some(s) => s@,
            None => default,
        },
    }
}

/// A gateway that runs commands on this machine.
pub struct LocalhostGateway {
    shell: String,
    user: String,
    hostname: String,
    sftp_server_path: Option<String>,
}

impl LocalhostGateway {
    pub closed spec fn shell_view(&self) -> Seq<char> {
        self.shell@
    }

    pub closed spec fn user_view(&self) -> Seq<char> {
        self.user@
    }

    pub closed spec fn hostname_view(&self) -> Seq<char> {
        self.hostname@
    }

    pub closed spec fn sftp_view(&self) -> Option<Seq<char>> {
        text::opt(self.sftp_server_path)
    }

    /// A gateway with the configured shell and user, or with those of the machine.
    pub fn new(
        shell: Option<String>,
        user: Option<String>,
        sftp_server_path: Option<String>,
        env: HostEnvironment,
    ) -> (r: Self)
        ensures
            r.shell_view() == first_of(shell, env.shell, "/bin/sh"@),
            r.user_view() == match user {
                Some(u) => u@,
                None => first_of(env.user, env.logname, "unknown"@),
            },
            r.hostname_view() == hostname_of(
                match env.hostname {
                    Some(b) => Some(b@),
                    None => None,
                },
            ),
            r.sftp_view() == text::opt(sftp_server_path),
    {
        let hostname = match &env.hostname {
            Some(b) => hostname_from(Some(b.as_slice())),
            None => hostname_from(None),
        };
        LocalhostGateway {
            shell: match shell {
                Some(s) => s,
                None => match env.shell {
                    Some(s) => s,
                    None => "/bin/sh".to_owned(),
                },
            },
            user: match user {
                Some(u) => u,
                None => match env.user {
                    Some(u) => u,
                    None => match env.logname {
                        Some(u) => u,
                        None => "unknown".to_owned(),
                    },
                },
            },
            hostname,
            sftp_server_path,
        }
    }

    /// The shell that sessions run.
    pub fn shell(&self) -> (r: &str)
        ensures
            r@ == self.shell_view(),
    {
        self.shell.as_str()
    }

    /// The server for file transfers, if one is configured.
    pub fn sftp_server_path(&self) -> (r: Option<&str>)
        ensures
            text::opt_str(r) == self.sftp_view(),
    {
        match &self.sftp_server_path {
            Some(p) => Some(p.as_str()),
            None => None,
        }
    }

    /// The command line that runs some words on this machine.
    pub fn exec_command(&self, argv: &[String], cli_shell: &str, no_shell: bool) -> (r: String)
        ensures
            r@ == shell::final_command(
                text::texts(argv@),
                direct::effective(cli_shell@, no_shell, Some(self.shell_view()), ""@),
            ),
    {
        let s = choose_shell(cli_shell, no_shell, Some(self.shell.as_str()), "");
        build_final_command(argv, s.as_str())
    }
}

impl Gateway for LocalhostGateway {
    open spec fn name_view(&self) -> Seq<char> {
        SELF_GATEWAY_NAME@
    }

    fn name(&self) -> (r: &str) {
        SELF_GATEWAY_NAME
    }

    fn kind(&self) -> (r: GatewayKind)
        ensures
            r == GatewayKind::Localhost,
    {
        GatewayKind::Localhost
    }

    fn capabilities(&self) -> (r: Capabilities)
        ensures
            r.has(Capabilities::EXEC) && r.has(Capabilities::COPY) && r.has(Capabilities::PROXY)
                && r.has(Capabilities::LIST),
    {
        Capabilities::of(true, true, true, true)
    }

    /// This machine is the one server.
    fn list_servers(&self) -> (r: Result<Vec<ServerListRow>, GatewayError>)
        ensures
            r matches Ok(rows) && lists::views(rows@) == seq![
                config::RowView {
                    source: config::SourceView::Local,
                    server: config::EntryView {
                        alias: SELF_GATEWAY_NAME@,
                        host: self.hostname_view(),
                        port: 0,
                        user: self.user_view(),
                        auth: config::AuthView::NoAuth,
                    },
                },
            ],
    {
        let row = ServerListRow {
            source: ServerListSource::Local,
            server: ServerEntry {
                alias: SELF_GATEWAY_NAME.to_owned(),
                host: self.hostname.clone(),
                port: 0,
                user: self.user.clone(),
                auth: DirectAuth::NoAuth,
            },
        };
        let rows = one(row);
        assert(lists::views(rows@) =~= seq![row@]);
        Ok(rows)
    }
}

/// The host's name is what stands before the first zero byte of the buffer.
pub proof fn law_host_name_ends_at_the_zero(name: Seq<u8>, behind: Seq<u8>)
    requires
        !name.contains(0u8),
    ensures
        hostname_of(Some(name + seq![0u8] + behind)) == output::lossy_text(name),
        hostname_of(Some(name)) == output::lossy_text(name),
        hostname_of(None) == "localhost"@,
{
    let b = name + seq![0u8] + behind;
    let n = name.len() as int;
    assert forall|j: int| 0 <= j < n implies name[j] != 0u8 by {
        assert(name.contains(name[j]));
    }
    search::lemma_until_is(b, 0u8, n);
    search::lemma_until_is(name, 0u8, n);
    assert(b.take(n) =~= name);
    assert(name.take(n) =~= name);
}

/// What is configured counts first, then what is known, then the default.
pub proof fn law_configured_value_counts_first(a: String, b: String, default: Seq<char>)
    ensures
        first_of(Some(a), Some(b), default) == a@,
        first_of(Some(a), None, default) == a@,
        first_of(None, Some(b), default) == b@,
        first_of(None, None, default) == default,
{
}

} // verus!
