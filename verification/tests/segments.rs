use ftl_stats::api::stats::{QueryStatus, QueryType, ReplyType, DnssecStatus};
use ftl_stats::convert::clients::{convert_client, top_clients};
use ftl_stats::convert::domains::convert_domain;
use ftl_stats::convert::queries::convert_query;
use ftl_stats::convert::upstreams::convert_upstream;
use ftl_stats::convert::counters::summary_of;
use ftl_stats::convert::domains::top_domains;
use ftl_stats::convert::overtime::overtime_data;
use ftl_stats::convert::queries::recent_queries;
use ftl_stats::convert::tables::{resolve_client_info, resolve_domain_name, resolve_upstream_name, Tables};
use ftl_stats::convert::upstreams::upstreams;
use ftl_stats::layout::{
    decode_counters, decode_domain, decode_query, decode_upstream, CLIENT_BLOCKED, CLIENT_COUNT, CLIENT_HWADDR, CLIENT_HWLEN, CLIENT_IP_POS, CLIENT_LAST_QUERY, CLIENT_MAGIC, CLIENT_NAME_POS, CLIENT_SIZE, COUNTERS_CLIENTS, COUNTERS_CLIENTS_MAX, COUNTERS_DB_GRAVITY, COUNTERS_DOMAINS, COUNTERS_DOMAINS_MAX, COUNTERS_QUERIES, COUNTERS_QUERIES_MAX, COUNTERS_QUERYTYPE, COUNTERS_REPLY, COUNTERS_SIZE, COUNTERS_STATUS, COUNTERS_STRINGS_MAX, COUNTERS_UPSTREAMS, COUNTERS_UPSTREAMS_MAX, DOMAIN_BLOCKED, DOMAIN_COUNT, DOMAIN_LAST_QUERY, DOMAIN_MAGIC, DOMAIN_POS, DOMAIN_SIZE, OVERTIME_BLOCKED, OVERTIME_CACHED, OVERTIME_SIZE, OVERTIME_TIMESTAMP, OVERTIME_TOTAL, QUERY_CLIENT_ID, QUERY_CNAME_DOMAIN_ID, QUERY_DNSSEC, QUERY_DOMAIN_ID, QUERY_ID, QUERY_MAGIC, QUERY_REPLY, QUERY_RESPONSE, QUERY_SIZE, QUERY_STATUS, QUERY_TIMESTAMP, QUERY_TYPE, QUERY_UPSTREAM_ID, SETTINGS_PID, SETTINGS_QPS, SETTINGS_SIZE, SETTINGS_VERSION, UPSTREAM_COUNT, UPSTREAM_FAILED, UPSTREAM_IP_POS, UPSTREAM_LAST_QUERY, UPSTREAM_MAGIC, UPSTREAM_NAME_POS, UPSTREAM_PORT, UPSTREAM_RTIME, UPSTREAM_SIZE,
};
use ftl_stats::shmem::reader::{check_settings, read_settings, strings_max_of, ShmemConfig, ShmemReader};
use ftl_stats::shmem::strings::{read_c_str, read_c_str_bytes};
use ftl_stats::{FtlError, FtlStats};

const M: u8 = 0x57;

fn put_u8(b: &mut [u8], off: usize, v: u8) {
    b[off] = v;
}
fn put_u16(b: &mut [u8], off: usize, v: u16) {
    b[off..off + 2].copy_from_slice(&v.to_le_bytes());
}
fn put_u32(b: &mut [u8], off: usize, v: u32) {
    b[off..off + 4].copy_from_slice(&v.to_le_bytes());
}
fn put_i32(b: &mut [u8], off: usize, v: i32) {
    b[off..off + 4].copy_from_slice(&v.to_le_bytes());
}
fn put_u64(b: &mut [u8], off: usize, v: u64) {
    b[off..off + 8].copy_from_slice(&v.to_le_bytes());
}
fn put_f64(b: &mut [u8], off: usize, v: f64) {
    put_u64(b, off, v.to_bits());
}

/// A string table and the offsets of its entries.
fn strings() -> (Vec<u8>, Vec<usize>) {
    let entries: [&[u8]; 8] = [
        b"example.com",
        b"ads.net",
        b"192.168.1.2",
        b"laptop",
        b"8.8.8.8",
        b"dns.google",
        b"\xff\xfe",
        b"10.0.0.9",
    ];
    let mut table = vec![0u8];
    let mut offsets = Vec::new();
    for e in entries.iter() {
        offsets.push(table.len());
        table.extend_from_slice(e);
        table.push(0);
    }
    (table, offsets)
}

struct Images {
    counters: Vec<u8>,
    domains: Vec<u8>,
    clients: Vec<u8>,
    upstreams: Vec<u8>,
    strings: Vec<u8>,
    queries: Vec<u8>,
    settings: Vec<u8>,
}

fn images() -> Images {
    let (strings, s) = strings();
    let mut counters = vec![0u8; COUNTERS_SIZE];
    put_u32(&mut counters, COUNTERS_QUERIES, 120);
    put_u32(&mut counters, COUNTERS_UPSTREAMS, 2);
    put_u32(&mut counters, COUNTERS_CLIENTS, 3);
    put_u32(&mut counters, COUNTERS_DOMAINS, 4);
    put_u32(&mut counters, COUNTERS_QUERIES_MAX, 4);
    put_u32(&mut counters, COUNTERS_UPSTREAMS_MAX, 2);
    put_u32(&mut counters, COUNTERS_CLIENTS_MAX, 3);
    put_u32(&mut counters, COUNTERS_DOMAINS_MAX, 4);
    put_u32(&mut counters, COUNTERS_STRINGS_MAX, strings.len() as u32);
    put_u32(&mut counters, COUNTERS_STATUS + 4 * 1, 30);
    put_u32(&mut counters, COUNTERS_STATUS + 4 * 2, 50);
    put_u32(&mut counters, COUNTERS_STATUS + 4 * 3, 20);
    put_u32(&mut counters, COUNTERS_STATUS + 4 * 4, 5);
    put_u32(&mut counters, COUNTERS_STATUS + 4 * 7, 15);
    put_u32(&mut counters, COUNTERS_QUERYTYPE + 4 * 1, 70);
    put_u32(&mut counters, COUNTERS_QUERYTYPE + 4 * 2, 50);
    put_u32(&mut counters, COUNTERS_REPLY + 4 * 4, 60);
    put_u32(&mut counters, COUNTERS_REPLY + 4 * 2, 10);
    put_i32(&mut counters, COUNTERS_DB_GRAVITY, 123456);

    let mut domains = vec![0u8; 4 * DOMAIN_SIZE];
    let dom = |b: &mut Vec<u8>, i: usize, magic: u8, count: i32, blocked: i32, pos: usize, t: f64| {
        let o = i * DOMAIN_SIZE;
        put_u8(b, o + DOMAIN_MAGIC, magic);
        put_i32(b, o + DOMAIN_COUNT, count);
        put_i32(b, o + DOMAIN_BLOCKED, blocked);
        put_u64(b, o + DOMAIN_POS, pos as u64);
        put_f64(b, o + DOMAIN_LAST_QUERY, t);
    };
    dom(&mut domains, 0, M, 10, 0, s[0], 1000.5);
    dom(&mut domains, 1, M, 20, 20, s[1], 2000.0);
    dom(&mut domains, 2, 0, 100, 0, s[0], 0.0);
    dom(&mut domains, 3, M, 50, 0, s[6], 0.0);

    let mut clients = vec![0u8; 3 * CLIENT_SIZE];
    let cli = |b: &mut Vec<u8>, i: usize, count: i32, ip: usize, name: usize, hw: &[u8]| {
        let o = i * CLIENT_SIZE;
        put_u8(b, o + CLIENT_MAGIC, M);
        put_u8(b, o + CLIENT_HWLEN, hw.len() as u8);
        b[o + CLIENT_HWADDR..o + CLIENT_HWADDR + hw.len()].copy_from_slice(hw);
        put_i32(b, o + CLIENT_COUNT, count);
        put_i32(b, o + CLIENT_BLOCKED, -4);
        put_u64(b, o + CLIENT_IP_POS, ip as u64);
        put_u64(b, o + CLIENT_NAME_POS, name as u64);
        put_f64(b, o + CLIENT_LAST_QUERY, 42.0);
    };
    cli(&mut clients, 0, 5, s[2], s[3], &[0xaa, 0xbb, 0xcc, 0x00, 0x11, 0x22]);
    cli(&mut clients, 1, 9, s[7], 0, &[]);
    cli(&mut clients, 2, 0, s[6], 0, &[]);

    let mut upstreams = vec![0u8; 2 * UPSTREAM_SIZE];
    let ups = |b: &mut Vec<u8>, i: usize, ip: usize, name: usize, port: u16| {
        let o = i * UPSTREAM_SIZE;
        put_u8(b, o + UPSTREAM_MAGIC, M);
        put_u16(b, o + UPSTREAM_PORT, port);
        put_i32(b, o + UPSTREAM_COUNT, 40);
        put_i32(b, o + UPSTREAM_FAILED, 1);
        put_u64(b, o + UPSTREAM_IP_POS, ip as u64);
        put_u64(b, o + UPSTREAM_NAME_POS, name as u64);
        put_f64(b, o + UPSTREAM_RTIME, 12.5);
        put_f64(b, o + UPSTREAM_LAST_QUERY, 77.0);
    };
    ups(&mut upstreams, 0, s[4], s[5], 53);
    ups(&mut upstreams, 1, 0, s[5], 853);

    let mut queries = vec![0u8; 4 * QUERY_SIZE];
    let qry = |b: &mut Vec<u8>, i: usize, magic: u8, status: u32, qtype: u32, domain: u32, client: u32, upstream: i32, cname: i32| {
        let o = i * QUERY_SIZE;
        put_u8(b, o + QUERY_MAGIC, magic);
        put_u32(b, o + QUERY_STATUS, status);
        put_u32(b, o + QUERY_TYPE, qtype);
        put_u32(b, o + QUERY_REPLY, 4);
        put_u32(b, o + QUERY_DNSSEC, 1);
        put_u32(b, o + QUERY_DOMAIN_ID, domain);
        put_u32(b, o + QUERY_CLIENT_ID, client);
        put_i32(b, o + QUERY_UPSTREAM_ID, upstream);
        put_i32(b, o + QUERY_ID, 100 + i as i32);
        put_i32(b, o + QUERY_CNAME_DOMAIN_ID, cname);
        put_f64(b, o + QUERY_RESPONSE, 0.25);
        put_f64(b, o + QUERY_TIMESTAMP, 1700000000.0 + i as f64);
    };
    qry(&mut queries, 0, M, 2, 1, 0, 0, 0, -1);
    qry(&mut queries, 1, M, 1, 2, 1, 1, -1, 0);
    qry(&mut queries, 2, 0, 2, 1, 0, 0, 0, -1);
    qry(&mut queries, 3, M, 2, 28, 0, 7, 0, -1);

    let mut settings = vec![0u8; SETTINGS_SIZE];
    put_i32(&mut settings, SETTINGS_VERSION, 14);
    put_i32(&mut settings, SETTINGS_PID, 4321);
    for k in 0..30 {
        put_u32(&mut settings, SETTINGS_QPS + 4 * k, k as u32);
    }

    Images { counters, domains, clients, upstreams, strings, queries, settings }
}

fn tables(im: &Images) -> Tables<'_> {
    Tables {
        counters: &im.counters,
        domains: &im.domains,
        clients: &im.clients,
        upstreams: &im.upstreams,
        strings: &im.strings,
        strings_max: strings_max_of(&im.counters),
    }
}

#[test]
fn strings_read_up_to_nul() {
    let (table, s) = strings();
    assert_eq!(read_c_str(&table, table.len(), s[1]).unwrap(), "ads.net");
    assert_eq!(read_c_str(&table, table.len(), 0).unwrap(), "");
    assert_eq!(read_c_str(b"abc", 3, 1).unwrap(), "bc");
    match read_c_str(&table, 5, 7) {
        Err(FtlError::InvalidStringOffset { offset, buffer_size }) => {
            assert_eq!((offset, buffer_size), (7, 5))
        }
        other => panic!("{:?}", other),
    }
    match read_c_str(&table, 1000, table.len()) {
        Err(FtlError::InvalidStringOffset { offset, buffer_size }) => {
            assert_eq!((offset, buffer_size), (table.len(), table.len()))
        }
        other => panic!("{:?}", other),
    }
    match read_c_str(&table, table.len(), s[6]) {
        Err(FtlError::Utf8Error { offset, .. }) => assert_eq!(offset, s[6]),
        other => panic!("{:?}", other),
    }
    assert_eq!(read_c_str_bytes(&table, table.len(), s[1]).unwrap(), b"ads.net\0");
    assert!(read_c_str_bytes(b"abc", 3, 0).is_err());
}

#[test]
fn settings_checks() {
    let im = images();
    let v = check_settings(&im.settings).unwrap();
    assert_eq!(v.shmem_version, 14);
    assert_eq!(v.pid, 4321);
    match check_settings(&im.settings[..100]) {
        Err(FtlError::ShmemTooSmall { expected, actual }) => {
            assert_eq!((expected, actual), (SETTINGS_SIZE, 100))
        }
        other => panic!("{:?}", other),
    }
    let mut old = im.settings.clone();
    put_i32(&mut old, SETTINGS_VERSION, 13);
    match check_settings(&old) {
        Err(FtlError::VersionMismatch { expected, found }) => assert_eq!((expected, found), (14, 13)),
        other => panic!("{:?}", other),
    }
    let s = read_settings(&im.settings).unwrap();
    assert_eq!(s.qps.len(), 30);
    assert_eq!(s.qps[29], 29);
}

#[test]
fn counters_past_the_end_read_as_zero() {
    let im = images();
    let c = decode_counters(&im.counters[..20]);
    assert_eq!(c.queries, 120);
    assert_eq!(c.queries_max, 4);
    assert_eq!(c.domains_max, 0);
    assert_eq!(c.status, vec![0u32; 19]);
    let full = decode_counters(&im.counters);
    assert_eq!(full.gravity, 123456);
    assert_eq!(full.status[7], 15);
}

#[test]
fn lookups() {
    let im = images();
    let t = tables(&im);
    assert_eq!(resolve_domain_name(&t, 1).unwrap(), "ads.net");
    match resolve_domain_name(&t, 4) {
        Err(FtlError::OutOfBounds { index, max }) => assert_eq!((index, max), (4, 4)),
        other => panic!("{:?}", other),
    }
    let (ip, name) = resolve_client_info(&t, 0).unwrap();
    assert_eq!(ip, "192.168.1.2");
    assert_eq!(name.as_deref(), Some("laptop"));
    assert_eq!(resolve_client_info(&t, 1).unwrap().1, None);
    assert!(resolve_client_info(&t, 2).is_err());
    assert_eq!(resolve_upstream_name(&t, 0).unwrap(), "8.8.8.8");
    assert_eq!(resolve_upstream_name(&t, 1).unwrap(), "dns.google");
}

#[test]
fn domains_by_count() {
    let im = images();
    let t = tables(&im);
    let all = top_domains(&t, 10, true);
    let names: Vec<_> = all.iter().map(|d| (d.domain.as_str(), d.count)).collect();
    assert_eq!(names, vec![("ads.net", 20), ("example.com", 10)]);
    assert_eq!(all[1].last_query.bits, 1000.5f64.to_bits());
    let allowed = top_domains(&t, 10, false);
    assert_eq!(allowed.len(), 1);
    assert_eq!(allowed[0].domain, "example.com");
    assert_eq!(top_domains(&t, 1, true)[0].domain, "ads.net");
    assert!(top_domains(&t, 0, true).is_empty());
}

#[test]
fn clients_by_count() {
    let im = images();
    let t = tables(&im);
    let c = top_clients(&t, 10);
    assert_eq!(c.len(), 2);
    assert_eq!(c[0].ip, "10.0.0.9");
    assert_eq!(c[0].count, 9);
    assert_eq!(c[0].mac, None);
    assert_eq!(c[1].ip, "192.168.1.2");
    assert_eq!(c[1].name.as_deref(), Some("laptop"));
    assert_eq!(c[1].mac.as_deref(), Some("aa:bb:cc:00:11:22"));
    assert_eq!(c[1].blocked_count, 0);
}

#[test]
fn upstream_servers() {
    let im = images();
    let t = tables(&im);
    let u = upstreams(&t);
    // the second record's address offset 0 names the empty string
    assert_eq!(u.len(), 2);
    assert_eq!(u[1].ip, "");
    assert_eq!(u[1].port, 853);
    assert_eq!(u[0].ip, "8.8.8.8");
    assert_eq!(u[0].name.as_deref(), Some("dns.google"));
    assert_eq!(u[0].port, 53);
    assert_eq!(u[0].count, 40);
    assert_eq!(u[0].failed, 1);
    assert_eq!(f64::from_bits(u[0].response_time_avg_ms.bits), 12.5);
}

#[test]
fn recent_queries_newest_first() {
    let im = images();
    let t = tables(&im);
    // record 3 names a client that does not exist, record 2 is not in use
    let q = recent_queries(&t, &im.queries, 10);
    assert_eq!(q.len(), 2);
    assert_eq!(q[0].id, 101);
    assert_eq!(q[0].domain, "ads.net");
    assert_eq!(q[0].client_ip, "10.0.0.9");
    assert_eq!(q[0].client_name, None);
    assert_eq!(q[0].status, QueryStatus::Gravity);
    assert!(q[0].blocked);
    assert_eq!(q[0].query_type, QueryType::AAAA);
    assert_eq!(q[0].upstream, None);
    assert_eq!(q[0].cname.as_deref(), Some("example.com"));
    assert_eq!(q[1].id, 100);
    assert_eq!(q[1].status, QueryStatus::Forwarded);
    assert!(!q[1].blocked);
    assert_eq!(q[1].reply, ReplyType::Ip);
    assert_eq!(q[1].dnssec, DnssecStatus::Secure);
    assert_eq!(q[1].upstream.as_deref(), Some("8.8.8.8"));
    assert_eq!(q[1].client_name.as_deref(), Some("laptop"));
    assert_eq!(f64::from_bits(q[1].response_time.bits), 0.25);
    // the newest in-use record is taken even though it fails to convert
    let one = recent_queries(&t, &im.queries, 1);
    assert!(one.is_empty());
    let two = recent_queries(&t, &im.queries, 2);
    assert_eq!(two.len(), 1);
    assert_eq!(two[0].id, 101);
}

#[test]
fn overtime_slots() {
    let mut b = vec![0u8; 3 * OVERTIME_SIZE + 5];
    put_u64(&mut b, OVERTIME_TIMESTAMP, 1_700_000_000);
    put_i32(&mut b, OVERTIME_TOTAL, 100);
    put_i32(&mut b, OVERTIME_BLOCKED, 30);
    put_i32(&mut b, OVERTIME_CACHED, 20);
    let o = 2 * OVERTIME_SIZE;
    put_u64(&mut b, o + OVERTIME_TIMESTAMP, 1_700_000_600);
    put_i32(&mut b, o + OVERTIME_TOTAL, 10);
    put_i32(&mut b, o + OVERTIME_BLOCKED, 8);
    put_i32(&mut b, o + OVERTIME_CACHED, 7);
    let s = overtime_data(&b);
    assert_eq!(s.len(), 2);
    assert_eq!(s[0].timestamp, 1_700_000_000);
    assert_eq!((s[0].total, s[0].blocked, s[0].cached, s[0].forwarded), (100, 30, 20, 50));
    assert_eq!(s[0].forwarded + s[0].blocked + s[0].cached, s[0].total);
    assert_eq!((s[1].total, s[1].forwarded), (10, 0));
}

#[test]
fn summary_figures() {
    let im = images();
    let t = tables(&im);
    let s = summary_of(&im.settings, &t);
    assert_eq!(s.queries_total, 120);
    assert_eq!(s.queries_blocked, 50);
    assert_eq!(s.queries_forwarded, 50);
    assert_eq!(s.queries_cached, 20);
    assert_eq!(s.domains_unique, 4);
    assert_eq!(s.clients_total, 3);
    assert_eq!(s.clients_active, 2);
    assert_eq!(s.upstreams_total, 2);
    assert_eq!(s.qps_window_sum, 435);
    assert_eq!(s.gravity_size, 123456);
    assert_eq!(s.query_types.len(), 2);
    assert!(s.query_types.contains(&(QueryType::A, 70)));
    assert!(s.query_types.contains(&(QueryType::AAAA, 50)));
    assert_eq!(s.status_distribution.len(), 5);
    assert!(s.status_distribution.contains(&(QueryStatus::ExternalBlocked, 15)));
    assert_eq!(s.reply_types.len(), 2);
    assert!(s.reply_types.contains(&(ReplyType::Ip, 60)));
    assert!(s.reply_types.contains(&(ReplyType::NxDomain, 10)));
}

#[test]
fn single_record_conversions() {
    let im = images();
    let t = tables(&im);
    let c = convert_client(&t, 0).unwrap();
    assert_eq!(c.mac.as_deref(), Some("aa:bb:cc:00:11:22"));
    assert_eq!(f64::from_bits(c.last_query.bits), 42.0);
    assert!(matches!(convert_client(&t, 2), Err(FtlError::Utf8Error { .. })));
    let d = convert_domain(&t, &decode_domain(&im.domains, 0)).unwrap();
    assert_eq!((d.domain.as_str(), d.count, d.blocked_count), ("example.com", 10, 0));
    assert!(convert_domain(&t, &decode_domain(&im.domains, 3)).is_err());
    let u = convert_upstream(&t, &decode_upstream(&im.upstreams, 0)).unwrap();
    assert_eq!(u.port, 53);
    match convert_query(&t, &decode_query(&im.queries, 2)) {
        Err(FtlError::InvalidMagicByte { expected, found }) => assert_eq!((expected, found), (0x57, 0)),
        other => panic!("{:?}", other.map(|q| q.id)),
    }
    match convert_query(&t, &decode_query(&im.queries, 3)) {
        Err(FtlError::OutOfBounds { index, max }) => assert_eq!((index, max), (7, 3)),
        other => panic!("{:?}", other.map(|q| q.id)),
    }
    let q = convert_query(&t, &decode_query(&im.queries, 0)).unwrap();
    assert_eq!(q.domain, "example.com");
    assert_eq!(q.cname, None);
}

#[test]
fn smaller_limit_gives_prefix() {
    let im = images();
    let t = tables(&im);
    let all = top_domains(&t, 10, true);
    for k in 0..4 {
        let some = top_domains(&t, k, true);
        assert_eq!(some.len(), k.min(all.len()));
        for (a, b) in some.iter().zip(all.iter()) {
            assert_eq!((a.domain.as_str(), a.count), (b.domain.as_str(), b.count));
        }
        let c = top_clients(&t, k);
        let call = top_clients(&t, 10);
        assert_eq!(c.len(), k.min(call.len()));
        for (a, b) in c.iter().zip(call.iter()) {
            assert_eq!(a.ip, b.ip);
        }
    }
}

fn mapping(bytes: &[u8]) -> memmap2::Mmap {
    let mut m = memmap2::MmapMut::map_anon(bytes.len()).unwrap();
    m.copy_from_slice(bytes);
    m.make_read_only().unwrap()
}

#[test]
fn reader_reads_its_own_segments() {
    let im = images();
    let mut overtime = vec![0u8; OVERTIME_SIZE];
    put_u64(&mut overtime, OVERTIME_TIMESTAMP, 1_700_000_000);
    put_i32(&mut overtime, OVERTIME_TOTAL, 9);
    let version = check_settings(&im.settings).unwrap();
    let reader = ShmemReader::from_segments(
        ShmemConfig::with_pid(4321, None),
        version,
        mapping(&im.settings),
        mapping(&im.counters),
        mapping(&im.strings),
        mapping(&im.queries),
        mapping(&im.clients),
        mapping(&im.domains),
        mapping(&im.upstreams),
        mapping(&overtime),
        mapping(&[0u8; 8]),
    );
    assert_eq!(reader.strings.max_len(), im.strings.len());
    assert_eq!(reader.strings.read_string(1).unwrap(), &"example.com"[..]);
    let stats = FtlStats::from_reader(reader);
    assert_eq!(stats.ftl_pid(), 4321);
    let s = stats.summary();
    assert_eq!((s.queries_total, s.queries_blocked, s.domains_unique, s.clients_total), (120, 50, 4, 3));
    assert_eq!(s.qps_window_sum, 435);
    let d = stats.top_domains(10, true);
    let names: Vec<_> = d.iter().map(|d| (d.domain.as_str(), d.count)).collect();
    assert_eq!(names, vec![("ads.net", 20), ("example.com", 10)]);
    let c = stats.top_clients(10);
    assert_eq!((c[0].ip.as_str(), c[0].count), ("10.0.0.9", 9));
    let u = stats.upstreams();
    assert_eq!(u[0].name.as_deref(), Some("dns.google"));
    let q = stats.recent_queries(10);
    assert_eq!(q.iter().map(|q| q.id).collect::<Vec<_>>(), vec![101, 100]);
    let o = stats.overtime_data();
    assert_eq!((o.len(), o[0].timestamp, o[0].total), (1, 1_700_000_000, 9));
    assert_eq!(stats.raw_counters().queries, 120);
}
