use vstd::prelude::*;

verus! {

/// The options of one run of the scanner.
#[derive(Clone, Debug)]
pub struct Args {
    pub username: Option<String>,
    pub password: Option<String>,
    pub domain: Option<String>,
    /// A host, a file of hosts, or a network such as `192.168.1.0/24`.
    pub target: String,
    /// How many hosts are worked on at once.
    pub workers: usize,
    /// Seconds allowed for each connection.
    pub timeout: u64,
}

/// The port that SMB is reached on.
pub const SMB_PORT: u16 = 445;

/// How many hosts are worked on at once when nothing else is asked.
pub const DEFAULT_WORKERS: usize = 128;

/// Seconds allowed for each connection when nothing else is asked.
pub const DEFAULT_TIMEOUT_SECS: u64 = 2;

/// The user, password and domain that sessions are opened with.
#[derive(Clone, Debug)]
pub struct Credentials {
    pub username: String,
    pub password: String,
    pub domain: String,
}

impl Credentials {
    /// The credentials of a run; each one not given is empty.
    pub fn from_args(args: &Args) -> (r: Credentials)
        ensures
            r.username@ == given_or_empty(args.username),
            r.password@ == given_or_empty(args.password),
            r.domain@ == given_or_empty(args.domain),
    {
        Credentials {
            username: or_empty(&args.username),
            password: or_empty(&args.password),
            domain: or_empty(&args.domain),
        }
    }
}

pub open spec fn given_or_empty(o: Option<String>) -> Seq<char> {
    match o {
        Some(s) => s@,
        None => Seq::empty(),
    }
}

fn or_empty(o: &Option<String>) -> (r: String)
    ensures
        r@ == given_or_empty(*o),
{
    match o {
        Some(s) => s.clone(),
        None => String::new(),
    }
}

/// One share found on one host.
#[derive(Clone, Debug)]
pub struct ScanResult {
    pub server: String,
    pub port: u16,
    pub hostname: String,
    pub share_name: String,
    pub permissions: String,
    pub comment: String,
}

/// A share record as plain sequences.
pub struct ScanRecord {
    pub server: Seq<char>,
    pub port: u16,
    pub hostname: Seq<char>,
    pub share_name: Seq<char>,
    pub permissions: Seq<char>,
    pub comment: Seq<char>,
}

impl View for ScanResult {
    type V = ScanRecord;

    open spec fn view(&self) -> ScanRecord {
        ScanRecord {
            server: self.server@,
            port: self.port,
            hostname: self.hostname@,
            share_name: self.share_name@,
            permissions: self.permissions@,
            comment: self.comment@,
        }
    }
}

impl ScanResult {
    /// A copy of the record.
    pub fn duplicate(&self) -> (r: ScanResult)
        ensures
            r@ == self@,
    {
        ScanResult {
            server: self.server.clone(),
            port: self.port,
            hostname: self.hostname.clone(),
            share_name: self.share_name.clone(),
            permissions: self.permissions.clone(),
            comment: self.comment.clone(),
        }
    }
}

} // verus!
