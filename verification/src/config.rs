//! Configuration of the session service: router addresses, datastore
//! address, shard assignment, and worker parallelism.

use vstd::prelude::*;

verus! {

/// Shards the session service can be responsible for.
pub const SHARD_COUNT: u32 = 128;

/// An IPv4 socket address as plain values: four octets and a port.
#[derive(Clone, Copy, Debug, PartialEq, Eq, Structural)]
pub struct SocketAddrV4 {
    pub a: u8,
    pub b: u8,
    pub c: u8,
    pub d: u8,
    pub port: u16,
}

impl SocketAddrV4 {
    /// An address from its octets and port.
    pub fn new(a: u8, b: u8, c: u8, d: u8, port: u16) -> (r: SocketAddrV4)
        ensures
            r == (SocketAddrV4 { a, b, c, d, port }),
    {
        SocketAddrV4 { a, b, c, d, port }
    }
}

/// Relies on num_cpus::get, which reports at least one logical CPU.
/// The count depends on the machine, so nothing more is promised.
#[verifier::external_body]
fn logical_cpus() -> (r: usize)
    ensures
        r >= 1,
{
    num_cpus::get()
}

/// Configuration for the session service.
pub struct Config {
    /// Addresses of routing servers to connect to.
    pub routers: Vec<SocketAddrV4>,
    /// Address of the persistent datastore.
    pub datastore_addr: SocketAddrV4,
    /// The routers' heartbeat port.
    pub heartbeat_port: u16,
    /// Shard identifiers serviced by the running service.
    pub shards: Vec<u32>,
    /// Threads processing queued messages.
    pub worker_threads: usize,
}

impl Default for Config {
    /// One local router, the local datastore, every shard, and one worker
    /// per logical CPU.
    fn default() -> (c: Config)
        ensures
            c.routers@.len() == 1 && c.routers@[0] == (SocketAddrV4 {
                a: 127,
                b: 0,
                c: 0,
                d: 1,
                port: 5562,
            }),
            c.datastore_addr == (SocketAddrV4 { a: 127, b: 0, c: 0, d: 1, port: 6379 }),
            c.heartbeat_port == 5563,
            c.shards@.len() == SHARD_COUNT,
            forall|i: int| 0 <= i < c.shards@.len() ==> #[trigger] c.shards@[i] == i,
            c.worker_threads >= 1,
    {
        let mut routers: Vec<SocketAddrV4> = Vec::new();
        routers.push(SocketAddrV4 { a: 127, b: 0, c: 0, d: 1, port: 5562 });
        let mut shards: Vec<u32> = Vec::new();
        let mut s: u32 = 0;
        while s < SHARD_COUNT
            invariant
                0 <= s <= SHARD_COUNT,
                shards@.len() == s,
                forall|i: int| 0 <= i < s ==> #[trigger] shards@[i] == i,
            decreases SHARD_COUNT - s,
        {
            shards.push(s);
            s = s + 1;
        }
        Config {
            routers,
            datastore_addr: SocketAddrV4 { a: 127, b: 0, c: 0, d: 1, port: 6379 },
            heartbeat_port: 5563,
            shards,
            worker_threads: logical_cpus(),
        }
    }
}

impl Config {
    /// The routing servers to connect to.
    pub fn route_addrs(&self) -> (r: &Vec<SocketAddrV4>)
        ensures
            r@ == self.routers@,
    {
        &self.routers
    }

    /// The routers' heartbeat port.
    pub fn heartbeat_port(&self) -> (r: u16)
        ensures
            r == self.heartbeat_port,
    {
        self.heartbeat_port
    }

    /// The shards this service is responsible for.
    pub fn shards(&self) -> (r: &Vec<u32>)
        ensures
            r@ == self.shards@,
    {
        &self.shards
    }

    /// The datastore connection URL, `redis://a.b.c.d:port`, as bytes.
    pub fn redis_url(&self) -> (r: Vec<u8>)
        ensures
            r@ == spec_redis_url(self.datastore_addr),
    {
        let mut r: Vec<u8> = Vec::new();
        // "redis://"
        r.push(114);
        r.push(101);
        r.push(100);
        r.push(105);
        r.push(115);
        r.push(58);
        r.push(47);
        r.push(47);
        proof {
            assert(r@ =~= url_scheme_bytes());
        }
        push_dec(&mut r, self.datastore_addr.a as u32);
        r.push(46);  // '.'
        push_dec(&mut r, self.datastore_addr.b as u32);
        r.push(46);
        push_dec(&mut r, self.datastore_addr.c as u32);
        r.push(46);
        push_dec(&mut r, self.datastore_addr.d as u32);
        r.push(58);  // ':'
        push_dec(&mut r, self.datastore_addr.port as u32);
        proof {
            assert(r@ =~= spec_redis_url(self.datastore_addr));
        }
        r
    }
}

/// The bytes of "redis://".
pub open spec fn url_scheme_bytes() -> Seq<u8> {
    seq![114u8, 101u8, 100u8, 105u8, 115u8, 58u8, 47u8, 47u8]
}

/// A non-negative number in decimal, as ASCII bytes.
pub open spec fn dec_bytes(n: int) -> Seq<u8>
    decreases n,
{
    if n < 10 {
        seq![(48 + if n >= 0 {
            n
        } else {
            0
        }) as u8]
    } else {
        dec_bytes(n / 10) + seq![(48 + n % 10) as u8]
    }
}

/// The datastore URL: scheme, dotted octets, colon, port.
pub open spec fn spec_redis_url(addr: SocketAddrV4) -> Seq<u8> {
    url_scheme_bytes() + dec_bytes(addr.a as int) + seq![46u8] + dec_bytes(addr.b as int) + seq![
        46u8,
    ] + dec_bytes(addr.c as int) + seq![46u8] + dec_bytes(addr.d as int) + seq![58u8] + dec_bytes(
        addr.port as int,
    )
}

/// Append `n` in decimal to `out`.
pub fn push_dec(out: &mut Vec<u8>, n: u32)
    ensures
        final(out)@ == old(out)@ + dec_bytes(n as int),
    decreases n,
{
    if n < 10 {
        out.push((48 + n) as u8);
        proof {
            assert(out@ =~= old(out)@ + dec_bytes(n as int));
        }
    } else {
        push_dec(out, n / 10);
        out.push((48 + n % 10) as u8);
        proof {
            assert(out@ =~= old(out)@ + dec_bytes(n as int));
        }
    }
}

} // verus!
