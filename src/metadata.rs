use vstd::prelude::*;

verus! {

/// What the store reports about the active logical database.
#[derive(PartialEq, Eq, Structural, Clone, Copy, Debug)]
pub struct Metadata {
    pub redis_db: i64,
    pub total_keys: u64,
}

/// Why the key count of the active database is unavailable.
#[derive(PartialEq, Eq, Structural, Clone, Copy, Debug)]
pub enum MetadataError {
    /// The store reports no section for the database (it holds no keys).
    MissingSection,
    /// The section has no `keys=<integer>` field that fits in 64 bits.
    UnparsableKeyCount,
}

/// The bytes `keys=`.
pub open spec fn keys_tag() -> Seq<u8> {
    seq![107u8, 101u8, 121u8, 115u8, 61u8]
}

pub open spec fn is_digit(b: u8) -> bool {
    48 <= b <= 57
}

/// A field named `keys` starts at `i`: at the start or after a comma.
pub open spec fn keys_field_at(s: Seq<u8>, i: int) -> bool {
    &&& 0 <= i
    &&& i + 5 <= s.len()
    &&& (i == 0 || s[i - 1] == 44u8)
    &&& s.subrange(i, i + 5) == keys_tag()
}

/// The first field named `keys` starts at `i`.
pub open spec fn first_keys_field(s: Seq<u8>, i: int) -> bool {
    &&& keys_field_at(s, i)
    &&& forall|j: int| 0 <= j < i ==> !keys_field_at(s, j)
}

/// The value of the field that starts at `i` (after its five-byte `keys=`)
/// ends at `e`: the next comma or the end.
pub open spec fn value_ends_at(s: Seq<u8>, i: int, e: int) -> bool {
    &&& i + 5 <= e <= s.len()
    &&& (e == s.len() || s[e] == 44u8)
    &&& forall|k: int| i + 5 <= k < e ==> s[k] != 44u8
}

/// Every byte is a decimal digit.
pub open spec fn all_digits(d: Seq<u8>) -> bool {
    forall|k: int| 0 <= k < d.len() ==> is_digit(#[trigger] d[k])
}

/// The number written by decimal digits.
pub open spec fn decimal(d: Seq<u8>) -> int
    decreases d.len(),
{
    if d.len() == 0 {
        0
    } else {
        decimal(d.drop_last()) * 10 + (d.last() - 48)
    }
}

/// The key count in a database's keyspace line (`keys=<n>,expires=...`): the
/// digits of the first field named `keys`, when they are all digits, at least
/// one, and fit in 64 bits.
pub open spec fn key_count_spec(s: Seq<u8>) -> Option<int> {
    if exists|i: int, e: int| #[trigger] first_keys_field(s, i) && #[trigger] value_ends_at(s, i, e) {
        let (i, e) = choose|i: int, e: int| #[trigger] first_keys_field(s, i) && #[trigger] value_ends_at(s, i, e);
        let d = s.subrange(i + 5, e);
        if d.len() > 0 && all_digits(d) && decimal(d) <= u64::MAX {
            Some(decimal(d))
        } else {
            None
        }
    } else {
        None
    }
}

proof fn lemma_decimal_grows(d: Seq<u8>, k: int)
    requires
        0 <= k <= d.len(),
        all_digits(d),
    ensures
        decimal(d.take(k)) <= decimal(d),
        decimal(d) >= 0,
    decreases d.len(),
{
    if d.len() > 0 {
        let p = d.drop_last();
        assert(all_digits(p)) by {
            assert forall|j: int| 0 <= j < p.len() implies is_digit(#[trigger] p[j]) by {
                assert(is_digit(d[j]));
            }
        }
        assert(is_digit(d[d.len() - 1]));
        if k == d.len() {
            assert(d.take(k) == d);
            lemma_decimal_grows(p, 0);
        } else {
            assert(d.take(k) == p.take(k));
            lemma_decimal_grows(p, k);
        }
    } else {
        assert(d.take(k) =~= d);
    }
}

proof fn lemma_value_ends_unique(s: Seq<u8>, i: int, e1: int, e2: int)
    requires
        value_ends_at(s, i, e1),
        value_ends_at(s, i, e2),
    ensures
        e1 == e2,
{
    if e1 < e2 {
        assert(s[e1] == 44u8);
    } else if e2 < e1 {
        assert(s[e2] == 44u8);
    }
}

/// Reads the key count from the keyspace line of the active database; a
/// missing line means the database has no section.
pub fn get_total_keys(db_info: Option<&[u8]>) -> (r: Result<u64, MetadataError>)
    ensures
        db_info is None ==> r == Err::<u64, MetadataError>(MetadataError::MissingSection),
        db_info matches Some(s) ==> match key_count_spec(s@) {
            Some(n) => r == Ok::<u64, MetadataError>(n as u64),
            None => r == Err::<u64, MetadataError>(MetadataError::UnparsableKeyCount),
        },
{
    let s = match db_info {
        None => {
            return Err(MetadataError::MissingSection);
        },
        Some(s) => s,
    };
    let n = s.len();
    // Find the first field named `keys`.
    let mut i: usize = 0;
    let mut found = false;
    while n - i >= 5 && !found
        invariant
            n == s@.len(),
            i <= n,
            found ==> keys_field_at(s@, i as int),
            forall|j: int| 0 <= j < i ==> !keys_field_at(s@, j),
        decreases n - i + if found { 0int } else { 1 },
    {
        if (i == 0 || s[i - 1] == 44u8) && s[i] == 107u8 && s[i + 1] == 101u8 && s[i + 2] == 121u8
            && s[i + 3] == 115u8 && s[i + 4] == 61u8 {
            assert(s@.subrange(i as int, i + 5) =~= keys_tag());
            found = true;
        } else {
            proof {
                if keys_field_at(s@, i as int) {
                    assert(s@.subrange(i as int, i + 5)[0] == s@[i as int]);
                    assert(s@.subrange(i as int, i + 5)[1] == s@[i + 1]);
                    assert(s@.subrange(i as int, i + 5)[2] == s@[i + 2]);
                    assert(s@.subrange(i as int, i + 5)[3] == s@[i + 3]);
                    assert(s@.subrange(i as int, i + 5)[4] == s@[i + 4]);
                }
            }
            i += 1;
        }
    }
    if !found {
        proof {
            assert forall|a: int, e: int| !(first_keys_field(s@, a) && value_ends_at(s@, a, e)) by {
                if first_keys_field(s@, a) && a >= i {
                    assert(a + 5 <= n);
                }
            }
        }
        return Err(MetadataError::UnparsableKeyCount);
    }
    // Read the digits up to the end of the field.
    let start = i + 5;
    let mut j: usize = start;
    let mut acc: u64 = 0;
    while j < n && s[j] != 44u8 && 48u8 <= s[j] && s[j] <= 57u8
        invariant
            n == s@.len(),
            db_info == Some(s),
            first_keys_field(s@, i as int),
            start == i + 5,
            start <= j <= n,
            forall|k: int| start <= k < j ==> s@[k] != 44u8,
            all_digits(s@.subrange(start as int, j as int)),
            acc == decimal(s@.subrange(start as int, j as int)),
        decreases n - j,
    {
        let b = s[j];
        let dv = (b - 48u8) as u64;
        let ghost prefix = s@.subrange(start as int, j as int);
        let ghost next = s@.subrange(start as int, j + 1);
        assert(next.drop_last() =~= prefix);
        assert(next.last() == b);
        assert forall|k: int| 0 <= k < next.len() implies is_digit(#[trigger] next[k]) by {
            if k < prefix.len() {
                assert(next[k] == prefix[k]);
            }
        }
        if acc > (u64::MAX - dv) / 10 {
            // Too large for 64 bits, whatever digits follow.
            proof {
                assert(decimal(next) > u64::MAX);
                lemma_count_rejected(s@, i as int, j + 1, true);
            }
            return Err(MetadataError::UnparsableKeyCount);
        }
        acc = acc * 10 + dv;
        j += 1;
    }
    if j < n && s[j] != 44u8 {
        // A byte that is not a digit inside the field.
        proof {
            lemma_count_rejected(s@, i as int, j as int, false);
        }
        return Err(MetadataError::UnparsableKeyCount);
    }
    proof {
        assert(value_ends_at(s@, i as int, j as int));
        assert(first_keys_field(s@, i as int));
        let (a, e) = choose|a: int, e: int| first_keys_field(s@, a) && value_ends_at(s@, a, e);
        assert(a == i) by {
            if a < i {
                assert(!keys_field_at(s@, a));
            } else if a > i {
                assert(!keys_field_at(s@, i as int));
            }
        }
        lemma_value_ends_unique(s@, i as int, e, j as int);
    }
    if j == start {
        return Err(MetadataError::UnparsableKeyCount);
    }
    Ok(acc)
}

/// The metadata of the active database, from its number and its keyspace line.
pub fn get_metadata(redis_db: i64, db_info: Option<&[u8]>) -> (r: Result<Metadata, MetadataError>)
    ensures
        db_info is None ==> r == Err::<Metadata, MetadataError>(MetadataError::MissingSection),
        db_info matches Some(s) ==> match key_count_spec(s@) {
            Some(n) => r == Ok::<Metadata, MetadataError>(Metadata { redis_db, total_keys: n as u64 }),
            None => r == Err::<Metadata, MetadataError>(MetadataError::UnparsableKeyCount),
        },
{
    match get_total_keys(db_info) {
        Ok(total_keys) => Ok(Metadata { redis_db, total_keys }),
        Err(e) => Err(e),
    }
}

/// The first `keys` field either holds a byte that is not a digit at `j`
/// (`too_large` false), or its digits up to `j` already exceed 64 bits.
proof fn lemma_count_rejected(s: Seq<u8>, i: int, j: int, too_large: bool)
    requires
        first_keys_field(s, i),
        i + 5 <= j <= s.len(),
        forall|k: int| i + 5 <= k < j ==> s[k] != 44u8,
        too_large ==> all_digits(s.subrange(i + 5, j)) && decimal(s.subrange(i + 5, j)) > u64::MAX,
        !too_large ==> j < s.len() && s[j] != 44u8 && !is_digit(s[j]),
    ensures
        key_count_spec(s) is None,
{
    let start = i + 5;
    if exists|a: int, e: int| first_keys_field(s, a) && value_ends_at(s, a, e) {
        let (a, e) = choose|a: int, e: int| first_keys_field(s, a) && value_ends_at(s, a, e);
        assert(a == i) by {
            if a < i {
                assert(!keys_field_at(s, a));
            } else if a > i {
                assert(!keys_field_at(s, i));
            }
        }
        let d = s.subrange(start, e);
        if too_large {
            assert(e >= j) by {
                if e < j {
                    assert(s[e] == 44u8);
                }
            }
            if all_digits(d) {
                assert(d.take(j - start) =~= s.subrange(start, j));
                lemma_decimal_grows(d, j - start);
            }
        } else {
            assert(e > j) by {
                if e < j {
                    assert(s[e] == 44u8);
                }
            }
            assert(d[j - start] == s[j]);
        }
    }
}

} // verus!
