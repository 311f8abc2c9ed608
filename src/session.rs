use vstd::prelude::*;
use crate::text::{decimal, decimal_string};

verus! {

/// Which side of a tunnel a session runs.
#[derive(Clone, Copy, Debug, PartialEq, Eq, Structural)]
pub enum Role {
    Client,
    Server,
}

/// Launch parameters of a client: forward `local_host:local_port` through the
/// relay at `to:port`.
#[derive(Debug)]
pub struct ClientConfig {
    pub local_host: String,
    pub local_port: u16,
    pub to: String,
    pub port: u16,
    pub secret: Option<String>,
}

/// Launch parameters of a server. The addresses are held in their canonical
/// text form.
#[derive(Debug)]
pub struct ServerConfig {
    pub min_port: u16,
    pub max_port: u16,
    pub secret: Option<String>,
    pub bind_addr: String,
    pub bind_tunnels: Option<String>,
}

/// The launch parameters of either role.
#[derive(Debug)]
pub enum SessionConfig {
    Client(ClientConfig),
    Server(ServerConfig),
}

/// An event pushed to observers.
#[derive(Debug)]
pub enum Event {
    /// The answer to an observer's `ping`, carrying its correlation id back.
    Pong { correlation: Option<String> },
    Started { role: Role, id: String, pid: u32, config: SessionConfig },
    /// A client announced the remote port that the relay gave it.
    PortAssigned { id: String, port: u16, address: String },
    Log { role: Role, id: String, line: String, is_error: bool },
    Exited { role: Role, id: String },
    Stopped { role: Role, id: String },
}

pub open spec fn config_role(c: SessionConfig) -> Role {
    match c {
        SessionConfig::Client(_) => Role::Client,
        SessionConfig::Server(_) => Role::Server,
    }
}

pub open spec fn flag_pair(flag: Seq<char>, value: Option<String>) -> Seq<Seq<char>> {
    match value {
        Some(v) => seq![flag, v@],
        None => Seq::empty(),
    }
}

/// The command line of a client process.
pub open spec fn client_args(c: ClientConfig) -> Seq<Seq<char>> {
    seq![
        "local"@,
        decimal(c.local_port as nat),
        "--local-host"@,
        c.local_host@,
        "--to"@,
        c.to@,
        "--port"@,
        decimal(c.port as nat),
    ] + flag_pair("--secret"@, c.secret)
}

/// The command line of a server process.
pub open spec fn server_args(c: ServerConfig) -> Seq<Seq<char>> {
    seq![
        "server"@,
        "--min-port"@,
        decimal(c.min_port as nat),
        "--max-port"@,
        decimal(c.max_port as nat),
        "--bind-addr"@,
        c.bind_addr@,
    ] + flag_pair("--secret"@, c.secret) + flag_pair("--bind-tunnels"@, c.bind_tunnels)
}

pub open spec fn launch_args(c: SessionConfig) -> Seq<Seq<char>> {
    match c {
        SessionConfig::Client(cc) => client_args(cc),
        SessionConfig::Server(sc) => server_args(sc),
    }
}

/// The `type` tag that an event carries on the wire.
pub open spec fn event_kind(e: Event) -> Seq<char> {
    match e {
        Event::Pong { .. } => "pong"@,
        Event::Started { role: Role::Client, .. } => "client_started"@,
        Event::Started { role: Role::Server, .. } => "server_started"@,
        Event::PortAssigned { .. } => "client_port_assigned"@,
        Event::Log { role: Role::Client, .. } => "client_log"@,
        Event::Log { role: Role::Server, .. } => "server_log"@,
        Event::Exited { role: Role::Client, .. } => "client_exited"@,
        Event::Exited { role: Role::Server, .. } => "server_exited"@,
        Event::Stopped { role: Role::Client, .. } => "client_stopped"@,
        Event::Stopped { role: Role::Server, .. } => "server_stopped"@,
    }
}

fn owned(s: &str) -> (r: String)
    ensures
        r@ == s@,
{
    s.to_owned()
}

fn copy_opt(o: &Option<String>) -> (r: Option<String>)
    ensures
        r == *o,
{
    match o {
        Some(s) => Some(s.clone()),
        None => None,
    }
}

fn push_flag(args: &mut Vec<String>, flag: &str, value: &Option<String>)
    ensures
        final(args)@.map_values(|a: String| a@) == old(args)@.map_values(|a: String| a@)
            + flag_pair(flag@, *value),
{
    let ghost before = args@;
    match value {
        Some(v) => {
            args.push(owned(flag));
            args.push(v.clone());
        },
        None => {},
    }
    assert(args@.map_values(|a: String| a@) =~= before.map_values(|a: String| a@) + flag_pair(
        flag@,
        *value,
    ));
}

impl ClientConfig {
    pub fn copy(&self) -> (r: ClientConfig)
        ensures
            r == *self,
    {
        ClientConfig {
            local_host: self.local_host.clone(),
            local_port: self.local_port,
            to: self.to.clone(),
            port: self.port,
            secret: copy_opt(&self.secret),
        }
    }

    /// The arguments that start a client process with this configuration.
    pub fn args(&self) -> (r: Vec<String>)
        ensures
            r@.map_values(|a: String| a@) == client_args(*self),
    {
        let mut v: Vec<String> = Vec::new();
        v.push(owned("local"));
        v.push(decimal_string(self.local_port));
        v.push(owned("--local-host"));
        v.push(self.local_host.clone());
        v.push(owned("--to"));
        v.push(self.to.clone());
        v.push(owned("--port"));
        v.push(decimal_string(self.port));
        assert(v@.map_values(|a: String| a@) =~= seq![
            "local"@,
            decimal(self.local_port as nat),
            "--local-host"@,
            self.local_host@,
            "--to"@,
            self.to@,
            "--port"@,
            decimal(self.port as nat),
        ]);
        push_flag(&mut v, "--secret", &self.secret);
        v
    }
}

impl ServerConfig {
    pub fn copy(&self) -> (r: ServerConfig)
        ensures
            r == *self,
    {
        ServerConfig {
            min_port: self.min_port,
            max_port: self.max_port,
            secret: copy_opt(&self.secret),
            bind_addr: self.bind_addr.clone(),
            bind_tunnels: copy_opt(&self.bind_tunnels),
        }
    }

    /// The arguments that start a server process with this configuration.
    pub fn args(&self) -> (r: Vec<String>)
        ensures
            r@.map_values(|a: String| a@) == server_args(*self),
    {
        let mut v: Vec<String> = Vec::new();
        v.push(owned("server"));
        v.push(owned("--min-port"));
        v.push(decimal_string(self.min_port));
        v.push(owned("--max-port"));
        v.push(decimal_string(self.max_port));
        v.push(owned("--bind-addr"));
        v.push(self.bind_addr.clone());
        assert(v@.map_values(|a: String| a@) =~= seq![
            "server"@,
            "--min-port"@,
            decimal(self.min_port as nat),
            "--max-port"@,
            decimal(self.max_port as nat),
            "--bind-addr"@,
            self.bind_addr@,
        ]);
        push_flag(&mut v, "--secret", &self.secret);
        push_flag(&mut v, "--bind-tunnels", &self.bind_tunnels);
        v
    }
}

impl SessionConfig {
    pub fn copy(&self) -> (r: SessionConfig)
        ensures
            r == *self,
    {
        match self {
            SessionConfig::Client(c) => SessionConfig::Client(c.copy()),
            SessionConfig::Server(c) => SessionConfig::Server(c.copy()),
        }
    }

    pub fn role(&self) -> (r: Role)
        ensures
            r == config_role(*self),
    {
        match self {
            SessionConfig::Client(_) => Role::Client,
            SessionConfig::Server(_) => Role::Server,
        }
    }

    /// The arguments that start a process of this configuration's role.
    pub fn args(&self) -> (r: Vec<String>)
        ensures
            r@.map_values(|a: String| a@) == launch_args(*self),
    {
        match self {
            SessionConfig::Client(c) => c.args(),
            SessionConfig::Server(c) => c.args(),
        }
    }
}

impl Event {
    pub fn copy(&self) -> (r: Event)
        ensures
            r == *self,
    {
        match self {
            Event::Pong { correlation } => Event::Pong { correlation: copy_opt(correlation) },
            Event::Started { role, id, pid, config } => Event::Started {
                role: *role,
                id: id.clone(),
                pid: *pid,
                config: config.copy(),
            },
            Event::PortAssigned { id, port, address } => Event::PortAssigned {
                id: id.clone(),
                port: *port,
                address: address.clone(),
            },
            Event::Log { role, id, line, is_error } => Event::Log {
                role: *role,
                id: id.clone(),
                line: line.clone(),
                is_error: *is_error,
            },
            Event::Exited { role, id } => Event::Exited { role: *role, id: id.clone() },
            Event::Stopped { role, id } => Event::Stopped { role: *role, id: id.clone() },
        }
    }

    /// The `type` tag of this event.
    pub fn kind(&self) -> (r: String)
        ensures
            r@ == event_kind(*self),
    {
        match self {
            Event::Pong { .. } => owned("pong"),
            Event::Started { role: Role::Client, .. } => owned("client_started"),
            Event::Started { role: Role::Server, .. } => owned("server_started"),
            Event::PortAssigned { .. } => owned("client_port_assigned"),
            Event::Log { role: Role::Client, .. } => owned("client_log"),
            Event::Log { role: Role::Server, .. } => owned("server_log"),
            Event::Exited { role: Role::Client, .. } => owned("client_exited"),
            Event::Exited { role: Role::Server, .. } => owned("server_exited"),
            Event::Stopped { role: Role::Client, .. } => owned("client_stopped"),
            Event::Stopped { role: Role::Server, .. } => owned("server_stopped"),
        }
    }
}

} // verus!
