//! The default recipe-level to job-level table offered to the front end
//! when it asks for a recipe's player level.

use vstd::prelude::*;

verus! {

/// The job level a recipe of the given recipe level is meant for.
pub open spec fn spec_job_level(rlv: int) -> int {
    if rlv < 50 {
        rlv
    } else if rlv < 115 {
        50
    } else if rlv < 124 {
        51
    } else if rlv < 130 {
        52
    } else if rlv < 133 {
        53
    } else if rlv < 136 {
        54
    } else if rlv < 139 {
        55
    } else if rlv < 142 {
        56
    } else if rlv < 145 {
        57
    } else if rlv < 148 {
        58
    } else if rlv < 150 {
        59
    } else if rlv < 255 {
        60
    } else if rlv < 265 {
        61
    } else if rlv < 270 {
        62
    } else if rlv < 273 {
        63
    } else if rlv < 276 {
        64
    } else if rlv < 279 {
        65
    } else if rlv < 282 {
        66
    } else if rlv < 285 {
        67
    } else if rlv < 288 {
        68
    } else if rlv < 290 {
        69
    } else if rlv < 381 {
        70
    } else if rlv < 395 {
        71
    } else if rlv < 400 {
        72
    } else if rlv < 403 {
        73
    } else if rlv < 406 {
        74
    } else if rlv < 409 {
        75
    } else if rlv < 412 {
        76
    } else if rlv < 415 {
        77
    } else if rlv < 418 {
        78
    } else if rlv < 430 {
        79
    } else {
        80
    }
}

/// Look up the job level a recipe level belongs to.
pub fn rlv_to_job_level(rlv: i32) -> (r: i32)
    ensures
        r == spec_job_level(rlv as int),
{
    if rlv < 50 {
        rlv
    } else if rlv < 115 {
        50
    } else if rlv < 124 {
        51
    } else if rlv < 130 {
        52
    } else if rlv < 133 {
        53
    } else if rlv < 136 {
        54
    } else if rlv < 139 {
        55
    } else if rlv < 142 {
        56
    } else if rlv < 145 {
        57
    } else if rlv < 148 {
        58
    } else if rlv < 150 {
        59
    } else if rlv < 255 {
        60
    } else if rlv < 265 {
        61
    } else if rlv < 270 {
        62
    } else if rlv < 273 {
        63
    } else if rlv < 276 {
        64
    } else if rlv < 279 {
        65
    } else if rlv < 282 {
        66
    } else if rlv < 285 {
        67
    } else if rlv < 288 {
        68
    } else if rlv < 290 {
        69
    } else if rlv < 381 {
        70
    } else if rlv < 395 {
        71
    } else if rlv < 400 {
        72
    } else if rlv < 403 {
        73
    } else if rlv < 406 {
        74
    } else if rlv < 409 {
        75
    } else if rlv < 412 {
        76
    } else if rlv < 415 {
        77
    } else if rlv < 418 {
        78
    } else if rlv < 430 {
        79
    } else {
        80
    }
}

} // verus!
