//! The configuration of the server, fixed when it starts.

use crate::text::{decimal, decimal_string};
use vstd::prelude::*;
use vstd::string::*;

verus! {

/// The port that the server listens on unless told otherwise.
pub const DEFAULT_PORT: u16 = 6969;

/// The address that the server binds to unless told otherwise.
pub const DEFAULT_HOST: &'static str = "0.0.0.0";

/// The directory whose videos are served unless told otherwise.
pub const DEFAULT_VIDEO_DIR: &'static str = ".";

/// The host name that stands in the server's address where the address of
/// the machine could not be found.
pub const FALLBACK_HOST: &'static str = "localhost";

/// What the server was started with, and the address that it tells its
/// clients.
#[derive(Debug)]
pub struct ServerConfig {
    /// The address to bind to.
    pub host: String,
    /// The port to listen on.
    pub port: u16,
    /// The directory whose videos are served.
    pub video_dir: String,
    /// The address under which clients reach the server.
    pub base_url: String,
}

/// The address under which clients reach a server on port `port` of the
/// machine with address `local_ip`, or of `localhost` where that is unknown.
pub open spec fn advertised_url(local_ip: Option<Seq<char>>, port: u16) -> Seq<char> {
    "http://"@ + match local_ip {
        Some(ip) => ip,
        None => FALLBACK_HOST@,
    } + ":"@ + decimal(port as nat)
}

/// The socket address of port `port` on host `host`, as text.
pub open spec fn socket_address(host: Seq<char>, port: u16) -> Seq<char> {
    host + ":"@ + decimal(port as nat)
}

impl ServerConfig {
    /// The configuration of a server on `host` and `port` that serves
    /// `video_dir`. `local_ip` is the address of this machine in its
    /// network, `None` where it could not be found.
    pub fn new(host: String, port: u16, video_dir: String, local_ip: Option<String>) -> (config:
        ServerConfig)
        ensures
            config.host@ == host@,
            config.port == port,
            config.video_dir@ == video_dir@,
            config.base_url@ == advertised_url(
                match local_ip {
                    Some(ip) => Some(ip@),
                    None => None,
                },
                port,
            ),
    {
        let mut base_url = String::from_str("http://");
        match &local_ip {
            Some(ip) => base_url.append(ip.as_str()),
            None => base_url.append(FALLBACK_HOST),
        }
        base_url.append(":");
        base_url.append(decimal_string(port as usize).as_str());
        ServerConfig { host, port, video_dir, base_url }
    }

    /// The socket address to bind to, as text: the host, `:` and the port.
    pub fn bind_address(&self) -> (address: String)
        ensures
            address@ == socket_address(self.host@, self.port),
    {
        let mut address = self.host.clone();
        address.append(":");
        address.append(decimal_string(self.port as usize).as_str());
        address
    }
}

} // verus!
