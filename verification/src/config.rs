//! Gateway configuration: plain values with their documented defaults.
use vstd::prelude::*;

verus! {

/// Settings of the SIP gateway. Loading from a file and filling in the
/// local address are done by the surrounding program; this type only
/// carries the values.
#[derive(Clone, Debug)]
pub struct Config {
    pub store_engine: String,
    pub store_url: String,
    pub user_agent: String,
    pub host: String,
    pub my_ip: String,
    pub sip_port: u16,
    pub http_port: u16,
    pub sip_domain: String,
    pub sip_id: String,
    pub sip_password: String,
    pub sip_algorithm: String,
    pub sip_nonce: String,
    pub sip_realm: String,
    pub socket_recv_buffer_size: usize,
    pub stream_timeout_seconds: u32,
    pub device_timeout_seconds: u32,
}

pub fn default_store_engine() -> (r: String)
    ensures
        r@ == "memory"@,
{
    "memory".to_owned()
}

pub fn default_store_url() -> (r: String)
    ensures
        r@ == "memory://"@,
{
    "memory://".to_owned()
}

pub fn default_user_agent() -> (r: String)
    ensures
        r@ == "wvprs"@,
{
    "wvprs".to_owned()
}

pub fn default_host() -> (r: String)
    ensures
        r@ == "0.0.0.0"@,
{
    "0.0.0.0".to_owned()
}

pub fn default_my_ip() -> (r: String)
    ensures
        r@ == ""@,
{
    "".to_owned()
}

pub fn default_sip_port() -> (r: u16)
    ensures
        r == 5060,
{
    5060
}

pub fn default_http_port() -> (r: u16)
    ensures
        r == 6070,
{
    6070
}

pub fn default_sip_domain() -> (r: String)
    ensures
        r@ == "3402000000"@,
{
    "3402000000".to_owned()
}

pub fn default_sip_id() -> (r: String)
    ensures
        r@ == "34020000002000000001"@,
{
    "34020000002000000001".to_owned()
}

pub fn default_sip_password() -> (r: String)
    ensures
        r@ == "d383cf85b0e8ce0b"@,
{
    "d383cf85b0e8ce0b".to_owned()
}

pub fn default_sip_algorithm() -> (r: String)
    ensures
        r@ == "md5"@,
{
    "md5".to_owned()
}

pub fn default_sip_nonce() -> (r: String)
    ensures
        r@ == "f89d0eaccaf1c90453e2f84688ec800f05"@,
{
    "f89d0eaccaf1c90453e2f84688ec800f05".to_owned()
}

pub fn default_sip_realm() -> (r: String)
    ensures
        r@ == "gbt@future_oriented.com"@,
{
    "gbt@future_oriented.com".to_owned()
}

pub fn default_socket_recv_buffer_size() -> (r: usize)
    ensures
        r == 65535,
{
    65535
}

pub fn default_stream_timeout_seconds() -> (r: u32)
    ensures
        r == 180,
{
    180
}

pub fn default_device_timeout_seconds() -> (r: u32)
    ensures
        r == 300,
{
    300
}

impl Default for Config {
    /// A configuration holding every documented default.
    fn default() -> (r: Config)
        ensures
            r.store_engine@ == "memory"@,
            r.store_url@ == "memory://"@,
            r.user_agent@ == "wvprs"@,
            r.host@ == "0.0.0.0"@,
            r.my_ip@ == ""@,
            r.sip_port == 5060,
            r.http_port == 6070,
            r.sip_domain@ == "3402000000"@,
            r.sip_id@ == "34020000002000000001"@,
            r.sip_password@ == "d383cf85b0e8ce0b"@,
            r.sip_algorithm@ == "md5"@,
            r.sip_nonce@ == "f89d0eaccaf1c90453e2f84688ec800f05"@,
            r.sip_realm@ == "gbt@future_oriented.com"@,
            r.socket_recv_buffer_size == 65535,
            r.stream_timeout_seconds == 180,
            r.device_timeout_seconds == 300,
    {
        Config {
            store_engine: default_store_engine(),
            store_url: default_store_url(),
            user_agent: default_user_agent(),
            host: default_host(),
            my_ip: default_my_ip(),
            sip_port: default_sip_port(),
            http_port: default_http_port(),
            sip_domain: default_sip_domain(),
            sip_id: default_sip_id(),
            sip_password: default_sip_password(),
            sip_algorithm: default_sip_algorithm(),
            sip_nonce: default_sip_nonce(),
            sip_realm: default_sip_realm(),
            socket_recv_buffer_size: default_socket_recv_buffer_size(),
            stream_timeout_seconds: default_stream_timeout_seconds(),
            device_timeout_seconds: default_device_timeout_seconds(),
        }
    }
}

} // verus!
