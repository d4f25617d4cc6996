use crawler::order::{rank_bytes, Rank};

#[test]
fn rank_bytes_orders_lexicographically() {
    assert_eq!(rank_bytes(b"", b""), Rank::Same);
    assert_eq!(rank_bytes(b"", b"a"), Rank::Before);
    assert_eq!(rank_bytes(b"a", b""), Rank::After);
    assert_eq!(rank_bytes(b"abc", b"abc"), Rank::Same);
    assert_eq!(rank_bytes(b"abc", b"abd"), Rank::Before);
    assert_eq!(rank_bytes(b"abd", b"abc"), Rank::After);
    assert_eq!(rank_bytes(b"ab", b"abc"), Rank::Before);
    assert_eq!(rank_bytes(b"abc", b"ab"), Rank::After);
    assert_eq!(rank_bytes(b"b", b"abc"), Rank::After);
    assert_eq!(rank_bytes(&[0x7f], &[0x80]), Rank::Before);
    assert_eq!(rank_bytes(&[0xff], &[0x00, 0x01]), Rank::After);
}
