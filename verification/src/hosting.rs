//! Naming and checking the set of matches one host process runs.
use vstd::prelude::*;
use vstd::string::StringExecFns;
use crate::match_types::BattleMatchId;

verus! {

pub open spec fn hex_digits() -> Seq<char> {
    seq!['0', '1', '2', '3', '4', '5', '6', '7', '8', '9', 'a', 'b', 'c', 'd', 'e', 'f']
}

/// The 16 lowercase hexadecimal digits of a value, most significant first.
pub open spec fn hex16(v: u64) -> Seq<char> {
    Seq::new(16, |i: int| hex_digits()[((v >> ((60 - 4 * i) as u64)) & 0xfu64) as int])
}

/// The route of a match: `br-` and its id as 16 lowercase hexadecimal digits.
pub open spec fn route_text(match_id: BattleMatchId) -> Seq<char> {
    "br-"@ + hex16(match_id.value())
}

fn hex_str(d: u64) -> (s: &'static str)
    requires
        d < 16,
    ensures
        s@ == seq![hex_digits()[d as int]],
{
    match d {
        0 => {
            proof {
                reveal_strlit("0");
            }
            "0"
        },
        1 => {
            proof {
                reveal_strlit("1");
            }
            "1"
        },
        2 => {
            proof {
                reveal_strlit("2");
            }
            "2"
        },
        3 => {
            proof {
                reveal_strlit("3");
            }
            "3"
        },
        4 => {
            proof {
                reveal_strlit("4");
            }
            "4"
        },
        5 => {
            proof {
                reveal_strlit("5");
            }
            "5"
        },
        6 => {
            proof {
                reveal_strlit("6");
            }
            "6"
        },
        7 => {
            proof {
                reveal_strlit("7");
            }
            "7"
        },
        8 => {
            proof {
                reveal_strlit("8");
            }
            "8"
        },
        9 => {
            proof {
                reveal_strlit("9");
            }
            "9"
        },
        10 => {
            proof {
                reveal_strlit("a");
            }
            "a"
        },
        11 => {
            proof {
                reveal_strlit("b");
            }
            "b"
        },
        12 => {
            proof {
                reveal_strlit("c");
            }
            "c"
        },
        13 => {
            proof {
                reveal_strlit("d");
            }
            "d"
        },
        14 => {
            proof {
                reveal_strlit("e");
            }
            "e"
        },
        _ => {
            proof {
                reveal_strlit("f");
            }
            "f"
        },
    }
}

/// The route-safe name of a match.
pub fn route_name(match_id: BattleMatchId) -> (name: String)
    ensures
        name@ == route_text(match_id),
{
    let v = match_id.get();
    let mut name = String::from_str("br-");
    let mut i: u64 = 0;
    while i < 16
        invariant
            i <= 16,
            v == match_id.value(),
            name@ == "br-"@ + hex16(v).take(i as int),
        decreases 16 - i,
    {
        let shift: u64 = 60 - 4 * i;
        let nibble = (v >> shift) & 0xfu64;
        assert(nibble < 16) by (bit_vector)
            requires
                nibble == (v >> shift) & 0xfu64,
        ;
        name.append(hex_str(nibble));
        proof {
            assert(hex16(v).take(i + 1) =~= hex16(v).take(i as int).push(hex16(v)[i as int]));
        }
        i = i + 1;
    }
    assert(hex16(v).take(16) =~= hex16(v));
    name
}

/// Why a set of matches cannot be hosted.
#[derive(Clone, Copy, Debug, PartialEq, Eq)]
pub enum MatchSetError {
    Empty,
    DuplicateMatch(BattleMatchId),
}

/// The id occurs at two positions of the list.
pub open spec fn is_duplicated(ids: Seq<BattleMatchId>, id: BattleMatchId) -> bool {
    exists|i: int, j: int| 0 <= i < j < ids.len() && ids[i] == id && ids[j] == id
}

/// A host needs at least one match and no match twice; of several duplicated ids the smallest
/// is reported.
pub fn validate_match_set(ids: &Vec<BattleMatchId>) -> (r: Result<(), MatchSetError>)
    ensures
        (r == Err::<(), MatchSetError>(MatchSetError::Empty)) <==> ids@.len() == 0,
        ids@.len() > 0 && (exists|d: BattleMatchId| is_duplicated(ids@, d)) ==> r matches Err(
            MatchSetError::DuplicateMatch(_),
        ),
        ids@.len() > 0 && (forall|d: BattleMatchId| !is_duplicated(ids@, d)) ==> r is Ok,
        r matches Err(MatchSetError::DuplicateMatch(d)) ==> ids@.len() > 0 && is_duplicated(ids@, d)
            && forall|e: BattleMatchId| is_duplicated(ids@, e) ==> d.value() <= e.value(),
        r is Ok ==> ids@.len() > 0 && forall|d: BattleMatchId| !is_duplicated(ids@, d),
{
    if ids.len() == 0 {
        return Err(MatchSetError::Empty);
    }
    let mut best: Option<BattleMatchId> = None;
    let mut i: usize = 0;
    while i < ids.len()
        invariant
            i <= ids@.len(),
            best matches Some(d) ==> is_duplicated(ids@, d),
            forall|a: int, b: int|
                0 <= a < i && a < b < ids@.len() && ids@[a] == ids@[b] ==> (best matches Some(d)
                    && d.value() <= ids@[a].value()),
        decreases ids.len() - i,
    {
        let mut j: usize = i + 1;
        while j < ids.len()
            invariant
                i < ids@.len(),
                i + 1 <= j <= ids@.len(),
                best matches Some(d) ==> is_duplicated(ids@, d),
                forall|a: int, b: int|
                    0 <= a < i && a < b < ids@.len() && ids@[a] == ids@[b] ==> (best matches Some(d)
                        && d.value() <= ids@[a].value()),
                forall|b: int|
                    i < b < j && ids@[i as int] == ids@[b] ==> (best matches Some(d) && d.value()
                        <= ids@[i as int].value()),
            decreases ids.len() - j,
        {
            if ids[i].get() == ids[j].get() {
                proof {
                    BattleMatchId::lemma_value_determines(ids@[i as int], ids@[j as int]);
                }
                let replace = match best {
                    Some(d) => ids[i].get() < d.get(),
                    None => true,
                };
                if replace {
                    best = Some(ids[i]);
                }
            } else {
                assert(ids@[i as int] != ids@[j as int]);
            }
            j = j + 1;
        }
        i = i + 1;
    }
    match best {
        Some(d) => {
            proof {
                assert forall|e: BattleMatchId| is_duplicated(ids@, e) implies d.value() <= e.value() by {
                    let (a, b) = choose|a: int, b: int| 0 <= a < b < ids@.len() && ids@[a] == e && ids@[b] == e;
                }
            }
            Err(MatchSetError::DuplicateMatch(d))
        },
        None => {
            proof {
                assert forall|d: BattleMatchId| !is_duplicated(ids@, d) by {
                    if is_duplicated(ids@, d) {
                        let (a, b) = choose|a: int, b: int| 0 <= a < b < ids@.len() && ids@[a] == d && ids@[b] == d;
                    }
                }
            }
            Ok(())
        },
    }
}

} // verus!
