//! Moving the selection through the launcher's list.
use vstd::prelude::*;

verus! {

/// The row a move starts from: the selected one, or, with nothing selected,
/// just above the first row when moving down and the first row otherwise.
pub open spec fn move_start(selected: Option<i32>, offset: i32) -> int {
    match selected {
        Some(s) => s as int,
        None => if offset > 0 {
            -1
        } else {
            0
        },
    }
}

/// The row selected after moving `offset` rows in a list of `count` rows,
/// wrapping around at both ends; none when the list is empty.
pub fn moved_selection(selected: Option<i32>, offset: i32, count: i32) -> (r: Option<i32>)
    requires
        count >= 0,
    ensures
        count == 0 ==> r is None,
        count > 0 ==> r == Some(((move_start(selected, offset) + offset) % (count as int)) as i32),
{
    if count == 0 {
        return None;
    }
    let start: i64 = match selected {
        Some(s) => s as i64,
        None => if offset > 0 {
            -1
        } else {
            0
        },
    };
    let target: i64 = start + offset as i64;
    let n: u64 = count as u64;
    let m: i64 = if target >= 0 {
        ((target as u64) % n) as i64
    } else {
        let k: u64 = ((-target) as u64) % n;
        if k == 0 {
            0
        } else {
            (n - k) as i64
        }
    };
    proof {
        let t = target as int;
        let c = count as int;
        if t < 0 {
            let k = (-t) % c;
            vstd::arithmetic::div_mod::lemma_fundamental_div_mod(-t, c);
            let q = (-t) / c;
            assert(t == (-q) * c + 0 - k) by (nonlinear_arith)
                requires
                    -t == c * q + k,
            ;
            assert(t == (-q - 1) * c + (c - k)) by (nonlinear_arith)
                requires
                    t == (-q) * c - k,
            ;
            if k == 0 {
                vstd::arithmetic::div_mod::lemma_fundamental_div_mod_converse(t, c, -((-t) / c), 0);
            } else {
                vstd::arithmetic::div_mod::lemma_fundamental_div_mod_converse(
                    t,
                    c,
                    -((-t) / c) - 1,
                    c - k,
                );
            }
        }
    }
    Some(m as i32)
}

} // verus!
