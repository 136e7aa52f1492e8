use vstd::prelude::*;

verus! {

/// Type byte of an IPv4 destination.
pub const ATYP_IPV4: u8 = 1;
/// Type byte of a domain-name destination.
pub const ATYP_DOMAIN: u8 = 3;
/// Type byte of an IPv6 destination.
pub const ATYP_IPV6: u8 = 4;

/// A destination announced through a tunnel: a literal address or a domain
/// name, with a port.
#[derive(Clone, Debug)]
pub enum Address {
    Ipv4 { octets: Vec<u8>, port: u16 },
    Ipv6 { octets: Vec<u8>, port: u16 },
    DomainName { host: Vec<u8>, port: u16 },
}

/// Why bytes could not be read as an address.
#[derive(Clone, Copy, Debug, PartialEq, Eq, Structural)]
pub enum AddressError {
    /// The bytes end before the descriptor does.
    Incomplete,
    /// The type byte names no known kind of address.
    UnknownType(u8),
}

/// A port as two bytes, most significant first.
pub open spec fn port_bytes(port: u16) -> Seq<u8> {
    seq![(port / 256) as u8, (port % 256) as u8]
}

impl Address {
    /// Literal addresses have 4 or 16 octets; a name fits its one length byte.
    pub open spec fn wf(&self) -> bool {
        match self {
            Address::Ipv4 { octets, .. } => octets@.len() == 4,
            Address::Ipv6 { octets, .. } => octets@.len() == 16,
            Address::DomainName { host, .. } => host@.len() <= 255,
        }
    }

    /// The canonical encoding: a type byte, the address (a name prefixed by
    /// its length), then the port.
    pub open spec fn spec_encoding(&self) -> Seq<u8> {
        match self {
            Address::Ipv4 { octets, port } => seq![ATYP_IPV4] + octets@ + port_bytes(*port),
            Address::Ipv6 { octets, port } => seq![ATYP_IPV6] + octets@ + port_bytes(*port),
            Address::DomainName { host, port } => seq![ATYP_DOMAIN, host@.len() as u8] + host@
                + port_bytes(*port),
        }
    }

    /// Whether the address can be encoded (see `wf`).
    pub fn is_valid(&self) -> (r: bool)
        ensures
            r == self.wf(),
    {
        match self {
            Address::Ipv4 { octets, .. } => octets.len() == 4,
            Address::Ipv6 { octets, .. } => octets.len() == 16,
            Address::DomainName { host, .. } => host.len() <= 255,
        }
    }

    /// Length of the canonical encoding.
    pub fn serialized_len(&self) -> (r: usize)
        requires
            self.wf(),
        ensures
            r == self.spec_encoding().len(),
    {
        match self {
            Address::Ipv4 { .. } => 7,
            Address::Ipv6 { .. } => 19,
            Address::DomainName { host, .. } => 4 + host.len(),
        }
    }

    /// Appends the canonical encoding to `buf`.
    pub fn write_to_buf(&self, buf: &mut Vec<u8>)
        requires
            self.wf(),
        ensures
            final(buf)@ == old(buf)@ + self.spec_encoding(),
    {
        match self {
            Address::Ipv4 { octets, port } => {
                buf.push(ATYP_IPV4);
                append_all(buf, octets);
                append_port(buf, *port);
            },
            Address::Ipv6 { octets, port } => {
                buf.push(ATYP_IPV6);
                append_all(buf, octets);
                append_port(buf, *port);
            },
            Address::DomainName { host, port } => {
                buf.push(ATYP_DOMAIN);
                buf.push(host.len() as u8);
                append_all(buf, host);
                append_port(buf, *port);
            },
        }
        assert(final(buf)@ =~= old(buf)@ + self.spec_encoding());
    }

    /// The canonical encoding on its own.
    pub fn to_bytes(&self) -> (r: Vec<u8>)
        requires
            self.wf(),
        ensures
            r@ == self.spec_encoding(),
    {
        let mut buf: Vec<u8> = Vec::new();
        self.write_to_buf(&mut buf);
        assert(buf@ =~= self.spec_encoding());
        buf
    }
}

fn append_all(buf: &mut Vec<u8>, src: &Vec<u8>)
    ensures
        final(buf)@ == old(buf)@ + src@,
{
    let mut i: usize = 0;
    while i < src.len()
        invariant
            i <= src@.len(),
            buf@ == old(buf)@ + src@.subrange(0, i as int),
        decreases src@.len() - i,
    {
        buf.push(src[i]);
        i = i + 1;
        assert(buf@ =~= old(buf)@ + src@.subrange(0, i as int));
    }
    assert(src@.subrange(0, src@.len() as int) =~= src@);
}

fn append_port(buf: &mut Vec<u8>, port: u16)
    ensures
        final(buf)@ == old(buf)@ + port_bytes(port),
{
    buf.push((port / 256) as u8);
    buf.push((port % 256) as u8);
    assert(final(buf)@ =~= old(buf)@ + port_bytes(port));
}

fn copy_range(bytes: &[u8], start: usize, end: usize) -> (r: Vec<u8>)
    requires
        start <= end <= bytes@.len(),
    ensures
        r@ == bytes@.subrange(start as int, end as int),
{
    let mut out: Vec<u8> = Vec::new();
    let mut i: usize = start;
    while i < end
        invariant
            start <= i <= end <= bytes@.len(),
            out@ == bytes@.subrange(start as int, i as int),
        decreases end - i,
    {
        out.push(bytes[i]);
        i = i + 1;
        assert(out@ =~= bytes@.subrange(start as int, i as int));
    }
    out
}

/// Length of the descriptor that `bytes` starts with, judged from its first
/// bytes alone (`None` when the type is unknown or the length byte is missing).
pub open spec fn spec_frame_len(bytes: Seq<u8>) -> Option<nat> {
    if bytes.len() == 0 {
        None
    } else if bytes[0] == ATYP_IPV4 {
        Some(7)
    } else if bytes[0] == ATYP_IPV6 {
        Some(19)
    } else if bytes[0] == ATYP_DOMAIN && bytes.len() >= 2 {
        Some(4 + bytes[1] as nat)
    } else {
        None
    }
}

/// How the result of `read_from` relates to the bytes it was given.
pub open spec fn read_post(bytes: Seq<u8>, r: Result<(Address, usize), AddressError>) -> bool {
    match r {
        Ok((a, n)) => {
            &&& a.wf()
            &&& n <= bytes.len()
            &&& bytes.subrange(0, n as int) == a.spec_encoding()
            &&& spec_frame_len(bytes) == Some(n as nat)
        },
        Err(AddressError::UnknownType(t)) => {
            &&& bytes.len() > 0
            &&& t == bytes[0]
            &&& t != ATYP_IPV4 && t != ATYP_IPV6 && t != ATYP_DOMAIN
        },
        Err(AddressError::Incomplete) => {
            ||| bytes.len() == 0
            ||| (bytes[0] == ATYP_DOMAIN && bytes.len() < 2)
            ||| (spec_frame_len(bytes) matches Some(n) && bytes.len() < n)
        },
    }
}

/// Reads one address from the front of `bytes`; on success also returns how
/// many bytes it took.
pub fn read_from(bytes: &[u8]) -> (r: Result<(Address, usize), AddressError>)
    ensures
        read_post(bytes@, r),
{
    if bytes.len() == 0 {
        return Err(AddressError::Incomplete);
    }
    let t = bytes[0];
    let (start, end): (usize, usize) = if t == ATYP_IPV4 {
        (1, 5)
    } else if t == ATYP_IPV6 {
        (1, 17)
    } else if t == ATYP_DOMAIN {
        if bytes.len() < 2 {
            return Err(AddressError::Incomplete);
        }
        (2, 2 + bytes[1] as usize)
    } else {
        return Err(AddressError::UnknownType(t));
    };
    if bytes.len() < end + 2 {
        return Err(AddressError::Incomplete);
    }
    let body = copy_range(bytes, start, end);
    let port: u16 = (bytes[end] as u16) * 256 + bytes[end + 1] as u16;
    let a = if t == ATYP_IPV4 {
        Address::Ipv4 { octets: body, port }
    } else if t == ATYP_IPV6 {
        Address::Ipv6 { octets: body, port }
    } else {
        Address::DomainName { host: body, port }
    };
    let n = end + 2;
    proof {
        assert(port_bytes(port) =~= seq![bytes@[end as int], bytes@[end + 1]]);
        assert(bytes@.subrange(0, n as int) =~= a.spec_encoding());
    }
    Ok((a, n))
}

/// Whatever follows it, the canonical encoding of an address reads back: the
/// read succeeds, takes exactly the encoding's bytes, and yields an address
/// with the same encoding.
pub proof fn lemma_encoding_reads_back(a: Address, rest: Seq<u8>, r: Result<(Address, usize), AddressError>)
    requires
        a.wf(),
        read_post(a.spec_encoding() + rest, r),
    ensures
        r matches Ok((b, n)) && n == a.spec_encoding().len() && b.spec_encoding() == a.spec_encoding(),
{
    let e = a.spec_encoding();
    let bytes = e + rest;
    assert(bytes.subrange(0, e.len() as int) =~= e);
    assert(bytes[0] == e[0]);
    if a is DomainName {
        assert(bytes[1] == e[1]);
    }
}

} // verus!
