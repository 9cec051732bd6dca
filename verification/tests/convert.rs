use ftl_stats::api::stats::{DnssecStatus, QueryStatus, QueryType, ReplyType};
use ftl_stats::convert::counters::{
    count_blocked_queries, extract_query_types_from_queries, extract_reply_types, extract_status_distribution,
};
use ftl_stats::convert::queries::{
    convert_dnssec_status, convert_query_status, convert_query_type, convert_reply_type, is_blocked,
};
use ftl_stats::convert::top::top_order;
use ftl_stats::convert::{port_to_u16, raw_status_to_enum, validate_magic};
use ftl_stats::FtlError;

#[test]
fn magic_byte() {
    assert!(validate_magic(0x57).is_ok());
    match validate_magic(0x00) {
        Err(FtlError::InvalidMagicByte { expected, found }) => {
            assert_eq!(expected, 0x57);
            assert_eq!(found, 0);
        }
        other => panic!("{:?}", other),
    }
}

#[test]
fn status_codes() {
    assert_eq!(raw_status_to_enum(0), QueryStatus::Other(0));
    assert_eq!(raw_status_to_enum(1), QueryStatus::Gravity);
    assert_eq!(raw_status_to_enum(2), QueryStatus::Forwarded);
    assert_eq!(raw_status_to_enum(3), QueryStatus::Cache);
    assert_eq!(raw_status_to_enum(4), QueryStatus::Regex);
    assert_eq!(raw_status_to_enum(5), QueryStatus::Denylist);
    assert_eq!(raw_status_to_enum(6), QueryStatus::ExternalBlocked);
    assert_eq!(raw_status_to_enum(7), QueryStatus::ExternalBlocked);
    assert_eq!(raw_status_to_enum(8), QueryStatus::ExternalBlocked);
    assert_eq!(raw_status_to_enum(17), QueryStatus::Other(17));
    assert_eq!(convert_query_status(5), QueryStatus::Denylist);
}

#[test]
fn blocked_matches_blocking_statuses() {
    for code in 0..40u32 {
        let blocking = matches!(
            raw_status_to_enum(code),
            QueryStatus::Gravity | QueryStatus::Regex | QueryStatus::Denylist | QueryStatus::ExternalBlocked
        );
        assert_eq!(is_blocked(code), blocking, "code {}", code);
    }
}

#[test]
fn query_types() {
    assert_eq!(convert_query_type(1), QueryType::A);
    assert_eq!(convert_query_type(2), QueryType::AAAA);
    assert_eq!(convert_query_type(9), QueryType::MX);
    assert_eq!(convert_query_type(13), QueryType::NS);
    assert_eq!(convert_query_type(14), QueryType::Other(14));
    assert_eq!(convert_query_type(15), QueryType::SVCB);
    assert_eq!(convert_query_type(16), QueryType::HTTPS);
    assert_eq!(convert_query_type(0x1_0005), QueryType::Other(5));
}

#[test]
fn reply_and_dnssec_codes() {
    assert_eq!(convert_reply_type(0), ReplyType::Unknown);
    assert_eq!(convert_reply_type(1), ReplyType::NoData);
    assert_eq!(convert_reply_type(4), ReplyType::Ip);
    assert_eq!(convert_reply_type(12), ReplyType::NoneReply);
    assert_eq!(convert_reply_type(13), ReplyType::Blob);
    assert_eq!(convert_reply_type(14), ReplyType::Unknown);
    assert_eq!(convert_dnssec_status(0), DnssecStatus::Unknown);
    assert_eq!(convert_dnssec_status(1), DnssecStatus::Secure);
    assert_eq!(convert_dnssec_status(4), DnssecStatus::Abandoned);
    assert_eq!(convert_dnssec_status(5), DnssecStatus::Unknown);
}

#[test]
fn port_from_network_order() {
    let p = port_to_u16(u16::to_be(53));
    assert_eq!(p, 53);
}

#[test]
fn blocked_sum_and_wrap() {
    let mut status = vec![0u32; 19];
    status[1] = 10;
    status[2] = 100;
    status[4] = 1;
    status[5] = 2;
    status[6] = 3;
    status[7] = 4;
    status[8] = 5;
    assert_eq!(count_blocked_queries(&status), 25);
    status[1] = u32::MAX;
    assert_eq!(count_blocked_queries(&status), 14);
    assert_eq!(count_blocked_queries(&vec![0, 7]), 7);
}

#[test]
fn status_distribution_keeps_last_of_shared_status() {
    let mut status = vec![0u32; 19];
    status[2] = 9;
    status[6] = 3;
    status[8] = 5;
    status[17] = 1;
    let d = extract_status_distribution(&status);
    assert_eq!(d.len(), 3);
    assert!(d.contains(&(QueryStatus::Forwarded, 9)));
    assert!(d.contains(&(QueryStatus::ExternalBlocked, 5)));
    assert!(d.contains(&(QueryStatus::Other(17), 1)));
}

#[test]
fn query_type_and_reply_distributions() {
    let mut qt = vec![0u32; 17];
    qt[0] = 4;
    qt[1] = 10;
    qt[14] = 8;
    qt[16] = 2;
    let d = extract_query_types_from_queries(&qt);
    assert_eq!(d.len(), 2);
    assert!(d.contains(&(QueryType::A, 10)));
    assert!(d.contains(&(QueryType::HTTPS, 2)));

    let mut reply = vec![0u32; 14];
    reply[1] = 1;
    reply[2] = 2;
    reply[3] = 3;
    reply[4] = 4;
    reply[7] = 7;
    let r = extract_reply_types(&reply);
    assert_eq!(r.len(), 4);
    assert!(r.contains(&(ReplyType::NoData, 1)));
    assert!(r.contains(&(ReplyType::NxDomain, 2)));
    assert!(r.contains(&(ReplyType::Cname, 3)));
    assert!(r.contains(&(ReplyType::Ip, 4)));
}

#[test]
fn top_order_is_stable_descending() {
    assert_eq!(top_order(&vec![3, 5, 5, 1], 3), vec![1, 2, 0]);
    assert_eq!(top_order(&vec![3, 5, 5, 1], 10), vec![1, 2, 0, 3]);
    assert_eq!(top_order(&vec![3, 5, 5, 1], 0), Vec::<usize>::new());
    assert_eq!(top_order(&vec![], 4), Vec::<usize>::new());
    assert_eq!(top_order(&vec![1, 1, 1, 1, 2], 2), vec![4, 0]);
}
