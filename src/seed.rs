use vstd::prelude::*;

verus! {

/// One fake key to write: `<resource>:<index>#<attribute>`, holding the text
/// `some_value` followed by `padding` underscores, expiring after
/// `expire_secs` seconds when set.
#[derive(PartialEq, Eq, Debug)]
pub struct FakeKey {
    pub resource: String,
    pub index: usize,
    pub attribute: String,
    pub padding: usize,
    pub expire_secs: Option<u64>,
}

/// The resources that fake keys are named after.
pub open spec fn fake_resources() -> Seq<Seq<char>> {
    seq!["user"@, "company"@]
}

/// The attributes that fake keys are named after.
pub open spec fn fake_attributes() -> Seq<Seq<char>> {
    seq!["friends"@, "messages"@, "memes"@]
}

/// The fake key number `index` (from 1), from four random draws: the resource
/// and attribute are picked by the draws modulo their counts, the value is
/// padded by a hundred underscores per index, and the key expires after
/// `ttl_draw` seconds when `with_ttl` is drawn.
pub fn fake_key(index: usize, resource_draw: u8, attribute_draw: u8, with_ttl: bool, ttl_draw: u8) -> (r: FakeKey)
    requires
        index * 100 <= usize::MAX,
    ensures
        r.resource@ == fake_resources()[(resource_draw % 2) as int],
        r.attribute@ == fake_attributes()[(attribute_draw % 3) as int],
        r.index == index,
        r.padding == index * 100,
        r.expire_secs == if with_ttl { Some(ttl_draw as u64) } else { None::<u64> },
{
    let resource = if resource_draw % 2 == 0 {
        "user".to_owned()
    } else {
        "company".to_owned()
    };
    let a = attribute_draw % 3;
    let attribute = if a == 0 {
        "friends".to_owned()
    } else if a == 1 {
        "messages".to_owned()
    } else {
        "memes".to_owned()
    };
    FakeKey {
        resource,
        index,
        attribute,
        padding: index * 100,
        expire_secs: if with_ttl {
            Some(ttl_draw as u64)
        } else {
            None
        },
    }
}

} // verus!
