use vstd::prelude::*;

verus! {

/// The first five keys, or all of them when there are fewer.
pub fn example_keys(keys: &Vec<String>) -> (r: Vec<String>)
    ensures
        r@ == keys@.take(if keys@.len() < 5 { keys@.len() as int } else { 5 }),
{
    let n: usize = if keys.len() < 5 {
        keys.len()
    } else {
        5
    };
    let mut r: Vec<String> = Vec::new();
    let mut i: usize = 0;
    while i < n
        invariant
            i <= n <= keys.len(),
            r@ == keys@.take(i as int),
        decreases n - i,
    {
        r.push(keys[i].clone());
        i += 1;
        assert(r@ =~= keys@.take(i as int));
    }
    r
}

} // verus!
