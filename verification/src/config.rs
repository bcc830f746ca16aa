//! The settings of the proxy: where it listens, what it tells clients that
//! it cannot serve, and how it reaches the control plane.

use crate::reply::{disconnect_json, disconnect_json_text, status_json, status_json_of};
use crate::text::{decimal, push_decimal};
use vstd::prelude::*;
use vstd::string::*;

verus! {

/// What the server list shows for a host that the proxy answers itself.
#[derive(Debug, Clone)]
pub struct MOTD {
    /// The description.
    pub text: String,
    /// The name shown in place of a version.
    pub protocol_name: String,
}

/// A backend host.
#[derive(Debug, Clone)]
pub struct Server {
    pub ip: String,
}

/// The messages for a host that no route leads to.
#[derive(Debug, Clone)]
pub struct UnknownHost {
    pub kick_message: String,
    pub motd: MOTD,
}

/// The messages for a backend that cannot be reached.
#[derive(Debug, Clone)]
pub struct OfflineServer {
    pub kick_message: String,
    /// Sent instead of the kick message when the backend is being started.
    pub starting_message: String,
    pub motd: MOTD,
}

/// A range of ports, both ends included.
#[derive(Debug, Clone)]
pub struct PortRange {
    pub start: u16,
    pub end: u16,
}

/// How a listener finds the backend of a connection.
#[derive(Clone, Copy, Debug, PartialEq, Eq, Structural)]
pub enum RoutingMode {
    /// By the hostname in the handshake, through the routing table.
    Hostname,
    /// By the port of the listener: the shared backend host, same port.
    PortSpan(u16),
}

/// An endpoint to bind and the way its connections are routed.
#[derive(Debug, Clone)]
pub struct Listener {
    pub address: String,
    pub mode: RoutingMode,
}

/// The settings.
#[derive(Debug, Clone)]
pub struct Config {
    /// The endpoint of the listener that routes by hostname.
    pub listen_addr: String,
    pub unknown_host: UnknownHost,
    pub offline_server: OfflineServer,
    /// The backend host that the listeners of the port range share.
    pub backend_server: String,
    pub port_range: PortRange,
    /// Whether a login for a backend that is down asks the control plane to
    /// start it.
    pub auto_start: bool,
    /// Where the control plane is.
    pub panel_link: String,
    /// The key that the control plane asks for.
    pub api_key: String,
}

/// The endpoint on all interfaces with this port.
pub open spec fn any_interface(port: u16) -> Seq<char> {
    "0.0.0.0:"@ + decimal(port as nat)
}

/// `host` and `port` as one address.
pub open spec fn host_port(host: Seq<char>, port: u16) -> Seq<char> {
    host + ":"@ + decimal(port as nat)
}

/// `listeners` are one listener for each port of `range`, lowest port
/// first, each on all interfaces and routing by its port.
pub open spec fn spans(listeners: Seq<Listener>, range: PortRange) -> bool {
    &&& listeners.len() == if range.start <= range.end {
        range.end - range.start + 1
    } else {
        0
    }
    &&& forall|k: int|
        0 <= k < listeners.len() ==> (#[trigger] listeners[k]).mode == RoutingMode::PortSpan(
            (range.start + k) as u16,
        ) && listeners[k].address@ == any_interface((range.start + k) as u16)
}

impl Default for Config {
    fn default() -> (config: Config)
        ensures
            config.listen_addr@ == "0.0.0.0:25565"@,
            config.unknown_host.kick_message@ == "§bRust Minecraft Proxy\n\n§cInvalid Address"@,
            config.unknown_host.motd.text@
                == "§cUnknown host!\n§7Please use a valid address to connect."@,
            config.unknown_host.motd.protocol_name@ == "§crust-minecraft-proxy"@,
            config.offline_server.kick_message@
                == "§bRust Minecraft Proxy\n\n§cServer is offline"@,
            config.offline_server.starting_message@
                == "§bRust Minecraft Proxy\n\n§eServer is starting..."@,
            config.offline_server.motd.text@ == "§cServer is offline!\n§7Please try again later."@,
            config.offline_server.motd.protocol_name@ == "§cServer Offline"@,
            config.backend_server@ == "212.87.213.125"@,
            config.port_range.start == 25565,
            config.port_range.end == 25575,
            !config.auto_start,
            config.panel_link@ == ""@,
            config.api_key@ == ""@,
    {
        let unknown_host = UnknownHost {
            kick_message: String::from_str("§bRust Minecraft Proxy\n\n§cInvalid Address"),
            motd: MOTD {
                text: String::from_str(
                    "§cUnknown host!\n§7Please use a valid address to connect.",
                ),
                protocol_name: String::from_str("§crust-minecraft-proxy"),
            },
        };
        let offline_server = OfflineServer {
            kick_message: String::from_str("§bRust Minecraft Proxy\n\n§cServer is offline"),
            starting_message: String::from_str(
                "§bRust Minecraft Proxy\n\n§eServer is starting...",
            ),
            motd: MOTD {
                text: String::from_str("§cServer is offline!\n§7Please try again later."),
                protocol_name: String::from_str("§cServer Offline"),
            },
        };
        Config {
            listen_addr: String::from_str("0.0.0.0:25565"),
            unknown_host,
            offline_server,
            backend_server: String::from_str("212.87.213.125"),
            port_range: PortRange { start: 25565, end: 25575 },
            auto_start: false,
            panel_link: String::from_str(""),
            api_key: String::from_str(""),
        }
    }
}

impl Config {
    /// The endpoint of the listener that routes by hostname.
    pub fn get_listen_addr(&self) -> (address: String)
        ensures
            address@ == self.listen_addr@,
    {
        self.listen_addr.clone()
    }

    /// The disconnect document for a host that no route leads to.
    pub fn get_unknown_host_kick_msg(&self) -> (document: String)
        ensures
            document@ == disconnect_json_text(self.unknown_host.kick_message@),
    {
        disconnect_json(self.unknown_host.kick_message.as_str())
    }

    /// The status document for a host that no route leads to.
    pub fn get_unknown_host_motd(&self) -> (document: String)
        ensures
            document@ == status_json_of(
                self.unknown_host.motd.protocol_name@,
                self.unknown_host.motd.text@,
            ),
    {
        status_json(
            self.unknown_host.motd.protocol_name.as_str(),
            self.unknown_host.motd.text.as_str(),
        )
    }

    /// The disconnect document for a backend that is down and stays down.
    pub fn get_offline_server_kick_msg(&self) -> (document: String)
        ensures
            document@ == disconnect_json_text(self.offline_server.kick_message@),
    {
        disconnect_json(self.offline_server.kick_message.as_str())
    }

    /// The disconnect document for a backend that is being started.
    pub fn get_offline_server_starting_msg(&self) -> (document: String)
        ensures
            document@ == disconnect_json_text(self.offline_server.starting_message@),
    {
        disconnect_json(self.offline_server.starting_message.as_str())
    }

    /// The status document for a backend that is down. The document is the
    /// same for every backend.
    pub fn get_offline_server_motd_not_starting(&self, _server_id: &str) -> (document: String)
        ensures
            document@ == status_json_of(
                self.offline_server.motd.protocol_name@,
                self.offline_server.motd.text@,
            ),
    {
        status_json(
            self.offline_server.motd.protocol_name.as_str(),
            self.offline_server.motd.text.as_str(),
        )
    }

    /// The listener that routes by hostname.
    pub fn hostname_listener(&self) -> (listener: Listener)
        ensures
            listener.address@ == self.listen_addr@,
            listener.mode == RoutingMode::Hostname,
    {
        Listener { address: self.listen_addr.clone(), mode: RoutingMode::Hostname }
    }

    /// One listener for each port of the range, lowest port first, each on
    /// all interfaces.
    pub fn port_span_listeners(&self) -> (listeners: Vec<Listener>)
        ensures
            spans(listeners@, self.port_range),
    {
        let mut listeners: Vec<Listener> = Vec::new();
        if self.port_range.start > self.port_range.end {
            return listeners;
        }
        let start = self.port_range.start;
        let end = self.port_range.end;
        let mut port: u16 = start;
        loop
            invariant_except_break
                start <= port <= end,
                listeners.len() == port - start,
            invariant
                start == self.port_range.start,
                end == self.port_range.end,
                start <= end,
                forall|k: int|
                    0 <= k < listeners.len() ==> (#[trigger] listeners[k]).mode
                        == RoutingMode::PortSpan((start + k) as u16) && listeners[k].address@
                        == any_interface((start + k) as u16),
            ensures
                listeners.len() == end - start + 1,
            decreases end - port,
        {
            let mut address = String::from_str("0.0.0.0:");
            push_decimal(&mut address, port);
            listeners.push(Listener { address, mode: RoutingMode::PortSpan(port) });
            if port == end {
                break ;
            }
            port = port + 1;
        }
        listeners
    }

    /// The listeners to bind. With a routing table the proxy listens on
    /// its one address and routes by hostname; without one it listens on
    /// every port of the range and routes by port.
    pub fn listeners(&self, has_table: bool) -> (listeners: Vec<Listener>)
        ensures
            has_table ==> listeners.len() == 1 && listeners[0].mode == RoutingMode::Hostname
                && listeners[0].address@ == self.listen_addr@,
            !has_table ==> spans(listeners@, self.port_range),
    {
        if has_table {
            let mut listeners: Vec<Listener> = Vec::new();
            listeners.push(self.hostname_listener());
            listeners
        } else {
            self.port_span_listeners()
        }
    }

    /// The backend of a connection that came in on `port` of the range: the
    /// shared backend host, same port.
    pub fn backend_for_port(&self, port: u16) -> (address: String)
        ensures
            address@ == host_port(self.backend_server@, port),
    {
        let mut address = self.backend_server.clone();
        address.append(":");
        push_decimal(&mut address, port);
        assert(address@ =~= host_port(self.backend_server@, port));
        address
    }
}

} // verus!
