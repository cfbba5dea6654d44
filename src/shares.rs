use crate::model::{ScanRecord, ScanResult, SMB_PORT};
use vstd::prelude::*;
use vstd::string::*;

verus! {

/// One entry of a host's root listing: its name and comment.
#[derive(Clone, Debug)]
pub struct ShareEntry {
    pub name: String,
    pub comment: String,
}

/// The user's read and write rights on a share.
#[derive(Clone, Copy, Debug, PartialEq, Eq)]
pub struct UserMode {
    pub read: bool,
    pub write: bool,
}

/// The two navigation entries `.` and `..`, which are not shares.
pub open spec fn is_navigation(name: Seq<char>) -> bool {
    name == seq!['.'] || name == seq!['.', '.']
}

/// `R` or `-`, then `W` or `-`.
pub open spec fn mode_text(m: UserMode) -> Seq<char> {
    seq![if m.read { 'R' } else { '-' }, if m.write { 'W' } else { '-' }]
}

/// The permissions shown for a share; `--` when they could not be read.
pub open spec fn permission_text(m: Option<UserMode>) -> Seq<char> {
    match m {
        Some(m) => mode_text(m),
        None => seq!['-', '-'],
    }
}

/// The host's own name when it gave a non-empty one, else the host string.
pub open spec fn host_name(netbios: Option<Seq<char>>, server: Seq<char>) -> Seq<char> {
    match netbios {
        Some(n) => if n.len() > 0 { n } else { server },
        None => server,
    }
}

/// The record of one share.
pub open spec fn share_record(
    server: Seq<char>,
    hostname: Seq<char>,
    e: ShareEntry,
    m: Option<UserMode>,
) -> ScanRecord {
    ScanRecord {
        server,
        port: SMB_PORT,
        hostname,
        share_name: e.name@,
        permissions: permission_text(m),
        comment: e.comment@,
    }
}

/// The records of a listing, in listing order, without the navigation
/// entries; `modes[i]` is what the permission lookup of `entries[i]` gave.
pub open spec fn share_rows(
    server: Seq<char>,
    hostname: Seq<char>,
    entries: Seq<ShareEntry>,
    modes: Seq<Option<UserMode>>,
) -> Seq<ScanRecord>
    decreases entries.len(),
{
    if entries.len() == 0 {
        Seq::empty()
    } else {
        let prev = share_rows(server, hostname, entries.drop_last(), modes.take(entries.len() - 1));
        let e = entries.last();
        if is_navigation(e.name@) {
            prev
        } else {
            prev.push(share_record(server, hostname, e, modes[entries.len() - 1]))
        }
    }
}

/// No record names a navigation entry, whatever the listing held.
pub proof fn lemma_rows_skip_navigation(
    server: Seq<char>,
    hostname: Seq<char>,
    entries: Seq<ShareEntry>,
    modes: Seq<Option<UserMode>>,
)
    ensures
        forall|j: int|
            0 <= j < share_rows(server, hostname, entries, modes).len() ==> !is_navigation(
                #[trigger] share_rows(server, hostname, entries, modes)[j].share_name,
            ),
    decreases entries.len(),
{
    if entries.len() > 0 {
        let n = entries.len() - 1;
        lemma_rows_skip_navigation(server, hostname, entries.drop_last(), modes.take(n));
        let prev = share_rows(server, hostname, entries.drop_last(), modes.take(n));
        let rows = share_rows(server, hostname, entries, modes);
        assert forall|j: int| 0 <= j < rows.len() implies !is_navigation(
            #[trigger] rows[j].share_name,
        ) by {
            if j < prev.len() {
                assert(rows[j] == prev[j]);
            }
        }
    }
}

/// Every listed share is reported, with `--` where its permission lookup
/// failed.
pub proof fn lemma_failed_lookup_still_reported(
    server: Seq<char>,
    hostname: Seq<char>,
    entries: Seq<ShareEntry>,
    modes: Seq<Option<UserMode>>,
    i: int,
)
    requires
        entries.len() == modes.len(),
        0 <= i < entries.len(),
        !is_navigation(entries[i].name@),
    ensures
        share_rows(server, hostname, entries, modes).contains(
            share_record(server, hostname, entries[i], modes[i]),
        ),
        modes[i] is None ==> share_record(server, hostname, entries[i], modes[i]).permissions
            == seq!['-', '-'],
    decreases entries.len(),
{
    let n = entries.len() - 1;
    let prev = share_rows(server, hostname, entries.drop_last(), modes.take(n));
    let rows = share_rows(server, hostname, entries, modes);
    if i == n {
        assert(rows.last() == share_record(server, hostname, entries[i], modes[i]));
    } else {
        lemma_failed_lookup_still_reported(server, hostname, entries.drop_last(), modes.take(n), i);
        let k = choose|k: int|
            0 <= k < prev.len() && prev[k] == share_record(
                server,
                hostname,
                entries.drop_last()[i],
                modes.take(n)[i],
            );
        assert(rows[k] == prev[k]);
    }
}

pub open spec fn record_views(v: Seq<ScanResult>) -> Seq<ScanRecord> {
    v.map_values(|r: ScanResult| r@)
}

/// Whether a listing entry is `.` or `..`.
pub fn is_navigation_entry(name: &str) -> (r: bool)
    ensures
        r == is_navigation(name@),
{
    let len = name.unicode_len();
    assert(len == 1 && name@[0] == '.' ==> name@ =~= seq!['.']);
    assert(len == 2 && name@[0] == '.' && name@[1] == '.' ==> name@ =~= seq!['.', '.']);
    if len == 1 {
        name.get_char(0) == '.'
    } else if len == 2 {
        name.get_char(0) == '.' && name.get_char(1) == '.'
    } else {
        false
    }
}

/// The two-character text of a mode.
pub fn format_permissions(m: &UserMode) -> (r: String)
    ensures
        r@ == mode_text(*m),
{
    proof {
        reveal_strlit("RW");
        reveal_strlit("R-");
        reveal_strlit("-W");
        reveal_strlit("--");
    }
    let r = if m.read {
        if m.write { "RW".to_owned() } else { "R-".to_owned() }
    } else {
        if m.write { "-W".to_owned() } else { "--".to_owned() }
    };
    assert(r@ =~= mode_text(*m));
    r
}

/// The permissions text of a lookup's outcome.
pub fn permissions_of(m: &Option<UserMode>) -> (r: String)
    ensures
        r@ == permission_text(*m),
{
    match m {
        Some(mode) => format_permissions(mode),
        None => {
            proof {
                reveal_strlit("--");
            }
            let r = "--".to_owned();
            assert(r@ =~= seq!['-', '-']);
            r
        },
    }
}

/// The name that a host's records carry.
pub fn resolve_hostname(netbios: Option<String>, server: &str) -> (r: String)
    ensures
        r@ == host_name(
            match netbios {
                Some(n) => Some(n@),
                None => None,
            },
            server@,
        ),
{
    match netbios {
        Some(n) => if n.as_str().unicode_len() > 0 { n } else { server.to_owned() },
        None => server.to_owned(),
    }
}

/// The records of one host's listing. `modes[i]` is what the permission
/// lookup of `entries[i]` gave, `None` where it failed or was not made.
pub fn share_records(
    server: &str,
    hostname: &str,
    entries: &Vec<ShareEntry>,
    modes: &Vec<Option<UserMode>>,
) -> (r: Vec<ScanResult>)
    requires
        entries@.len() == modes@.len(),
    ensures
        record_views(r@) == share_rows(server@, hostname@, entries@, modes@),
{
    let mut out: Vec<ScanResult> = Vec::new();
    let mut i: usize = 0;
    while i < entries.len()
        invariant
            entries@.len() == modes@.len(),
            i <= entries@.len(),
            record_views(out@) == share_rows(
                server@,
                hostname@,
                entries@.take(i as int),
                modes@.take(i as int),
            ),
        decreases entries@.len() - i,
    {
        let e = &entries[i];
        let ghost es = entries@.take(i + 1);
        let ghost ms = modes@.take(i + 1);
        assert(es.drop_last() =~= entries@.take(i as int));
        assert(ms.take(i as int) =~= modes@.take(i as int));
        assert(es.last() == entries@[i as int]);
        if !is_navigation_entry(e.name.as_str()) {
            let rec = ScanResult {
                server: server.to_owned(),
                port: SMB_PORT,
                hostname: hostname.to_owned(),
                share_name: e.name.clone(),
                permissions: permissions_of(&modes[i]),
                comment: e.comment.clone(),
            };
            let ghost before = out@;
            out.push(rec);
            assert(record_views(out@) =~= record_views(before).push(rec@));
        }
        i = i + 1;
    }
    assert(entries@.take(entries@.len() as int) =~= entries@);
    assert(modes@.take(modes@.len() as int) =~= modes@);
    out
}

} // verus!
