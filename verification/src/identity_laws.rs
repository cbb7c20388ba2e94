//! What holds of every group key.
use crate::identity::{
    escaped_byte, escaped_bytes, group_key, hex_upper, is_identity_char, is_plain_byte,
    is_plain_identity, is_upper_hex, namespace, nonblank_field, stable_id,
};
use crate::models::StoredLogEvent;
use crate::text::{free_of, lowercased, no_ascii_capital, trimmed};
use vstd::prelude::*;
use vstd::string::*;
use vstd::utf8::*;

verus! {

proof fn lemma_escaped_free(bytes: Seq<u8>)
    ensures
        free_of(escaped_bytes(bytes), '|'),
    decreases bytes.len(),
{
    if bytes.len() > 0 {
        let before = escaped_bytes(bytes.drop_last());
        let last = escaped_byte(bytes.last());
        lemma_escaped_free(bytes.drop_last());
        let all = before + last;
        assert forall|i: int| 0 <= i < all.len() implies #[trigger] all[i] != '|' by {
            if i < before.len() {
                assert(all[i] == before[i]);
            } else {
                assert(all[i] == last[i - before.len()]);
            }
        }
    }
}

/// Texts in front of the first bar are told apart by what they stand in.
proof fn lemma_before_bar(a: Seq<char>, b: Seq<char>, x: Seq<char>, y: Seq<char>)
    requires
        free_of(a, '|'),
        free_of(b, '|'),
        x.len() > 0,
        x[0] == '|',
        y.len() > 0,
        y[0] == '|',
        a + x == b + y,
    ensures
        a == b,
{
    let all = a + x;
    assert(all[a.len() as int] == '|');
    assert((b + y)[b.len() as int] == '|');
    if a.len() < b.len() {
        assert((b + y)[a.len() as int] == b[a.len() as int]);
    } else if b.len() < a.len() {
        assert(all[b.len() as int] == a[b.len() as int]);
    }
    assert(a =~= all.take(a.len() as int));
    assert(b =~= (b + y).take(b.len() as int));
}

proof fn lemma_namespace_free(event: StoredLogEvent)
    ensures
        free_of(namespace(event), '|'),
        free_of("event:"@ + stable_id(event.id@), '|'),
{
    reveal_strlit("repo:");
    reveal_strlit("source:");
    reveal_strlit("event:");
    lemma_escaped_free(encode_utf8(lowercased(trimmed(event.source@))));
    lemma_escaped_free(encode_utf8(lowercased(trimmed(event.id@))));
    if let Some(repo) = nonblank_field(event, "repo"@) {
        lemma_escaped_free(encode_utf8(lowercased(trimmed(repo))));
        lemma_added_free("repo:"@, stable_id(repo));
    }
    lemma_added_free("source:"@, stable_id(event.source@));
    lemma_added_free("event:"@, stable_id(event.id@));
}

proof fn lemma_added_free(a: Seq<char>, b: Seq<char>)
    requires
        free_of(a, '|'),
        free_of(b, '|'),
    ensures
        free_of(a + b, '|'),
{
    let all = a + b;
    assert forall|i: int| 0 <= i < all.len() implies #[trigger] all[i] != '|' by {
        if i < a.len() {
            assert(all[i] == a[i]);
        } else {
            assert(all[i] == b[i - a.len()]);
        }
    }
}

/// Whether an event stands alone: it names no work item, pull request, task or
/// session.
pub open spec fn stands_alone(event: StoredLogEvent) -> bool {
    &&& event.text_field("work_item"@) is None
    &&& event.text_field("pull_request"@) is None
    &&& nonblank_field(event, "task_id"@) is None
    &&& nonblank_field(event, "session_id"@) is None
}

/// What follows the namespace in the key of an event that does not stand alone.
spec fn key_rest(event: StoredLogEvent) -> Seq<char> {
    group_key(event).skip(namespace(event).len() as int)
}

proof fn lemma_key_rest(event: StoredLogEvent)
    requires
        !stands_alone(event),
    ensures
        group_key(event) == namespace(event) + key_rest(event),
        key_rest(event).len() > 0,
        key_rest(event)[0] == '|',
{
    reveal_strlit("|work-item:");
    reveal_strlit("|pull-request:");
    reveal_strlit("|task:");
    reveal_strlit("|session:");
    let ns = namespace(event);
    let key = group_key(event);
    assert(key.take(ns.len() as int) =~= ns);
    assert(key =~= ns + key.skip(ns.len() as int));
    assert(key[ns.len() as int] == '|');
}

/// Events of different repositories or sources are never grouped, unless both
/// stand alone and have one ID.
pub proof fn law_groups_keep_to_their_namespace(a: StoredLogEvent, b: StoredLogEvent)
    requires
        namespace(a) != namespace(b),
        !(stands_alone(a) && stands_alone(b) && stable_id(a.id@) == stable_id(b.id@)),
    ensures
        group_key(a) != group_key(b),
{
    lemma_namespace_free(a);
    lemma_namespace_free(b);
    if stands_alone(a) && stands_alone(b) {
        reveal_strlit("event:");
        let x = "event:"@ + stable_id(a.id@);
        let y = "event:"@ + stable_id(b.id@);
        if x == y {
            assert(x.skip(6) =~= stable_id(a.id@));
            assert(y.skip(6) =~= stable_id(b.id@));
        }
    } else if stands_alone(a) {
        lemma_key_rest(b);
        let at = namespace(b).len() as int;
        assert(group_key(b)[at] == '|');
        if group_key(a) == group_key(b) {
            assert(group_key(a)[at] != '|');
        }
    } else if stands_alone(b) {
        lemma_key_rest(a);
        let at = namespace(a).len() as int;
        assert(group_key(a)[at] == '|');
        if group_key(a) == group_key(b) {
            assert(group_key(b)[at] != '|');
        }
    } else {
        lemma_key_rest(a);
        lemma_key_rest(b);
        if group_key(a) == group_key(b) {
            lemma_before_bar(namespace(a), namespace(b), key_rest(a), key_rest(b));
        }
    }
}

/// Events that stand alone are grouped only where they have one ID.
pub proof fn law_lone_events_are_not_grouped(a: StoredLogEvent, b: StoredLogEvent)
    requires
        stands_alone(a),
        stands_alone(b),
        stable_id(a.id@) != stable_id(b.id@),
    ensures
        group_key(a) != group_key(b),
{
    reveal_strlit("event:");
    let x = "event:"@ + stable_id(a.id@);
    let y = "event:"@ + stable_id(b.id@);
    if x == y {
        assert(x.skip(6) =~= stable_id(a.id@));
        assert(y.skip(6) =~= stable_id(b.id@));
    }
}

proof fn lemma_escaped_first(bytes: Seq<u8>)
    requires
        bytes.len() > 0,
    ensures
        escaped_bytes(bytes) == escaped_byte(bytes[0]) + escaped_bytes(bytes.drop_first()),
    decreases bytes.len(),
{
    if bytes.len() == 1 {
        assert(bytes.drop_last() =~= Seq::<u8>::empty());
        assert(bytes.drop_first() =~= Seq::<u8>::empty());
        assert(escaped_bytes(bytes.drop_last()) =~= Seq::<char>::empty());
        assert(escaped_bytes(bytes) =~= escaped_byte(bytes[0]));
        assert(escaped_byte(bytes[0]) + escaped_bytes(bytes.drop_first()) =~= escaped_byte(
            bytes[0],
        ));
    } else {
        let init = bytes.drop_last();
        lemma_escaped_first(init);
        assert(init.drop_first() =~= bytes.drop_first().drop_last());
        assert(bytes.drop_first().last() == bytes.last());
        assert(escaped_bytes(bytes) =~= escaped_byte(bytes[0]) + (escaped_bytes(init.drop_first())
            + escaped_byte(bytes.last())));
    }
}

proof fn lemma_escaped_byte(a: u8, b: u8, x: Seq<char>, y: Seq<char>)
    requires
        escaped_byte(a) + x == escaped_byte(b) + y,
    ensures
        a == b,
        x == y,
{
    let p = escaped_byte(a) + x;
    let q = escaped_byte(b) + y;
    assert(p[0] == escaped_byte(a)[0]);
    assert(q[0] == escaped_byte(b)[0]);
    if is_plain_byte(a) {
        assert(is_plain_byte(b));
    } else {
        assert(!is_plain_byte(b));
        assert(p[1] == hex_upper(a / 16) && p[2] == hex_upper(a % 16));
        assert(q[1] == hex_upper(b / 16) && q[2] == hex_upper(b % 16));
        assert(a / 16 == b / 16);
        assert(a % 16 == b % 16);
    }
    assert(a == b);
    assert(x =~= p.skip(escaped_byte(a).len() as int));
    assert(y =~= q.skip(escaped_byte(b).len() as int));
}

proof fn lemma_escaped_unique(a: Seq<u8>, b: Seq<u8>)
    requires
        escaped_bytes(a) == escaped_bytes(b),
    ensures
        a == b,
    decreases a.len(),
{
    if a.len() > 0 {
        lemma_escaped_first(a);
    }
    if b.len() > 0 {
        lemma_escaped_first(b);
    }
    if a.len() == 0 || b.len() == 0 {
        assert(a.len() == 0 ==> escaped_bytes(a).len() == 0);
        assert(b.len() == 0 ==> escaped_bytes(b).len() == 0);
        assert(a.len() > 0 ==> escaped_bytes(a).len() > 0);
        assert(b.len() > 0 ==> escaped_bytes(b).len() > 0);
        assert(a =~= b);
    } else {
        lemma_escaped_byte(
            a[0],
            b[0],
            escaped_bytes(a.drop_first()),
            escaped_bytes(b.drop_first()),
        );
        lemma_escaped_unique(a.drop_first(), b.drop_first());
        assert(a =~= seq![a[0]] + a.drop_first());
        assert(b =~= seq![b[0]] + b.drop_first());
    }
}

/// A byte of a text below 128 is a character of it.
proof fn lemma_encoded_capital(c: char, i: int)
    requires
        !('A' <= c <= 'Z'),
        0 <= i < encode_scalar(c as u32).len(),
    ensures
        !(65 <= encode_scalar(c as u32)[i] <= 90),
{
    let n: u32 = c as u32;
    assert(n <= 0x7f ==> (n & 0x7F) as u8 == n) by (bit_vector);
    assert(0xC0 | ((n >> 6) & 0x1F) as u8 >= 128) by (bit_vector);
    assert(0xE0 | ((n >> 12) & 0x0F) as u8 >= 128) by (bit_vector);
    assert(0xF0 | ((n >> 18) & 0x7) as u8 >= 128) by (bit_vector);
    assert(0x80 | (n & 0x3F) as u8 >= 128) by (bit_vector);
    assert(0x80 | ((n >> 6) & 0x3F) as u8 >= 128) by (bit_vector);
    assert(0x80 | ((n >> 12) & 0x3F) as u8 >= 128) by (bit_vector);
}

/// A text without capital letters of ASCII has none among its bytes.
pub proof fn lemma_encoded_capitals(s: Seq<char>)
    requires
        no_ascii_capital(s),
    ensures
        forall|i: int|
            0 <= i < encode_utf8(s).len() ==> !(65 <= #[trigger] encode_utf8(s)[i] <= 90),
    decreases s.len(),
{
    if s.len() > 0 {
        let rest = s.drop_first();
        assert forall|i: int| 0 <= i < rest.len() implies !('A' <= #[trigger] rest[i] <= 'Z') by {
            assert(rest[i] == s[i + 1]);
        }
        lemma_encoded_capitals(rest);
        let head = encode_scalar(s[0] as u32);
        let tail = encode_utf8(rest);
        assert forall|i: int| 0 <= i < encode_utf8(s).len() implies !(65
            <= #[trigger] encode_utf8(s)[i] <= 90) by {
            if i < head.len() {
                lemma_encoded_capital(s[0], i);
                assert(encode_utf8(s)[i] == head[i]);
            } else {
                assert(encode_utf8(s)[i] == tail[i - head.len()]);
            }
        }
    }
}

pub proof fn lemma_escaped_is_plain(bytes: Seq<u8>)
    requires
        forall|i: int| 0 <= i < bytes.len() ==> !(65 <= #[trigger] bytes[i] <= 90),
    ensures
        is_plain_identity(escaped_bytes(bytes)),
    decreases bytes.len(),
{
    if bytes.len() > 0 {
        lemma_escaped_first(bytes);
        let rest = bytes.drop_first();
        assert forall|i: int| 0 <= i < rest.len() implies !(65 <= #[trigger] rest[i] <= 90) by {
            assert(rest[i] == bytes[i + 1]);
        }
        lemma_escaped_is_plain(rest);
        let all = escaped_bytes(bytes);
        let head = escaped_byte(bytes[0]);
        let tail = escaped_bytes(rest);
        assert(all[0] == head[0]);
        if is_plain_byte(bytes[0]) {
            assert(all.drop_first() =~= tail);
            assert(is_identity_char(all[0]));
        } else {
            assert(all[1] == head[1] && all[2] == head[2]);
            assert(all.skip(3) =~= tail);
            let b = bytes[0];
            assert(b / 16 < 16 && b % 16 < 16);
            assert(is_upper_hex(hex_upper(b / 16)));
            assert(is_upper_hex(hex_upper(b % 16)));
        }
    }
}

/// Texts have the same identity just where they differ in nothing but case and
/// white space at the ends.
pub proof fn law_identities_tell_texts_apart(a: Seq<char>, b: Seq<char>)
    ensures
        stable_id(a) == stable_id(b) <==> lowercased(trimmed(a)) == lowercased(trimmed(b)),
{
    let x = lowercased(trimmed(a));
    let y = lowercased(trimmed(b));
    if stable_id(a) == stable_id(b) {
        lemma_escaped_unique(encode_utf8(x), encode_utf8(y));
        encode_utf8_decode_utf8(x);
        encode_utf8_decode_utf8(y);
    }
}

} // verus!
