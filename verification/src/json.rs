//! The board codec's grammar. Encoding yields one canonical JSON text per
//! board; decoding accepts the standard JSON forms of that document —
//! insignificant whitespace, object members in any order, full string
//! escapes — and rejects everything else: unknown or duplicate members,
//! missing members, malformed numerals, trailing data.

use vstd::prelude::*;
use crate::board::{Card, ListView, BoardView};
use crate::jstring::{json_string, scalar_values, spec_parse_string, lemma_parse_string_of, lemma_esc_plain};
use crate::num::{
    dec_digits, is_digit, spec_parse_u32, spec_parse_u64, lemma_parse_u32_of_encoding,
    lemma_parse_u64_of_encoding, lemma_dec_digits,
};

verus! {

/// The JSON text of one list object.
pub open spec fn json_of_list(l: ListView) -> Seq<char> {
    "{\"list_id\":"@ + dec_digits(l.list_id as nat) + ",\"name\":"@ + json_string(l.name)
        + ",\"bounty_payout_percentage\":"@ + dec_digits(l.bounty_payout_percentage as nat)
        + "}"@
}

/// The JSON text of one card object.
pub open spec fn json_of_card(c: Card) -> Seq<char> {
    "{\"card_id\":"@ + dec_digits(c.card_id as nat) + ",\"list_id\":"@ + dec_digits(
        c.list_id as nat,
    ) + ",\"bounty\":"@ + dec_digits(c.bounty as nat) + "}"@
}

/// The comma-separated items of the members array.
pub open spec fn members_items(ms: Seq<Seq<char>>) -> Seq<char>
    decreases ms.len(),
{
    if ms.len() == 0 {
        Seq::empty()
    } else if ms.len() == 1 {
        json_string(ms[0])
    } else {
        json_string(ms[0]) + seq![','] + members_items(ms.drop_first())
    }
}

/// The comma-separated items of the lists array.
pub open spec fn lists_items(ls: Seq<ListView>) -> Seq<char>
    decreases ls.len(),
{
    if ls.len() == 0 {
        Seq::empty()
    } else if ls.len() == 1 {
        json_of_list(ls[0])
    } else {
        json_of_list(ls[0]) + seq![','] + lists_items(ls.drop_first())
    }
}

/// The comma-separated items of the cards array.
pub open spec fn cards_items(cs: Seq<Card>) -> Seq<char>
    decreases cs.len(),
{
    if cs.len() == 0 {
        Seq::empty()
    } else if cs.len() == 1 {
        json_of_card(cs[0])
    } else {
        json_of_card(cs[0]) + seq![','] + cards_items(cs.drop_first())
    }
}

pub open spec fn json_of_members(ms: Seq<Seq<char>>) -> Seq<char> {
    seq!['['] + members_items(ms) + seq![']']
}

pub open spec fn json_of_lists(ls: Seq<ListView>) -> Seq<char> {
    seq!['['] + lists_items(ls) + seq![']']
}

pub open spec fn json_of_cards(cs: Seq<Card>) -> Seq<char> {
    seq!['['] + cards_items(cs) + seq![']']
}

/// The canonical JSON text of a board, wrapped in its envelope.
pub open spec fn json_of_board(b: BoardView) -> Seq<char> {
    "{\"Board\":{\"seed\":"@ + dec_digits(b.seed as nat) + ",\"url\":"@ + json_string(b.url)
        + ",\"members\":"@ + json_of_members(b.members) + ",\"lists\":"@ + json_of_lists(b.lists)
        + ",\"cards\":"@ + json_of_cards(b.cards) + ",\"currency\":"@ + json_string(b.currency)
        + "}}"@
}

/// JSON's insignificant whitespace.
pub open spec fn is_json_ws(c: char) -> bool {
    c == ' ' || c == '\t' || c == '\n' || c == '\r'
}

/// First index at or after `i` that does not hold whitespace.
pub open spec fn skip_ws(s: Seq<char>, i: int) -> int
    decreases s.len() - i,
{
    if 0 <= i < s.len() && is_json_ws(s[i]) {
        skip_ws(s, i + 1)
    } else {
        i
    }
}

pub proof fn lemma_skip_ws(s: Seq<char>, i: int)
    requires
        0 <= i <= s.len(),
    ensures
        i <= skip_ws(s, i) <= s.len(),
        skip_ws(s, i) < s.len() ==> !is_json_ws(s[skip_ws(s, i)]),
    decreases s.len() - i,
{
    if i < s.len() && is_json_ws(s[i]) {
        lemma_skip_ws(s, i + 1);
    }
}

/// The skip stops exactly at a known whitespace-run boundary.
pub proof fn lemma_skip_ws_of(s: Seq<char>, i: int, j: int)
    requires
        0 <= i <= j <= s.len(),
        forall|k: int| i <= k < j ==> is_json_ws(#[trigger] s[k]),
        j < s.len() ==> !is_json_ws(s[j]),
    ensures
        skip_ws(s, i) == j,
    decreases j - i,
{
    if i < j {
        lemma_skip_ws_of(s, i + 1, j);
    }
}

/// What parsing the members of one list object yields, given the fields
/// already seen: members in any order, each at most once, all required.
pub open spec fn parse_list_members(
    s: Seq<char>,
    i: int,
    lid: Option<u32>,
    nm: Option<Seq<char>>,
    pct: Option<u32>,
) -> Option<(ListView, int)>
    decreases s.len() - i,
{
    let i0 = skip_ws(s, i);
    match spec_parse_string(s, i0) {
        None => None,
        Some((key, j0)) => {
            let j1 = skip_ws(s, j0);
            if j1 < s.len() && s[j1] == ':' {
                let j2 = skip_ws(s, j1 + 1);
                if key == "list_id"@ {
                    if lid is Some {
                        None
                    } else {
                        match spec_parse_u32(s, j2) {
                            None => None,
                            Some((x, j3)) => {
                                let j4 = skip_ws(s, j3);
                                if j4 < s.len() && s[j4] == ',' && i < j4 {
                                    parse_list_members(s, j4 + 1, Some(x), nm, pct)
                                } else if j4 < s.len() && s[j4] == '}' && nm is Some
                                    && pct is Some {
                                    Some(
                                        (
                                            ListView {
                                                list_id: x,
                                                name: nm.unwrap(),
                                                bounty_payout_percentage: pct.unwrap(),
                                            },
                                            j4 + 1,
                                        ),
                                    )
                                } else {
                                    None
                                }
                            },
                        }
                    }
                } else if key == "name"@ {
                    if nm is Some {
                        None
                    } else {
                        match spec_parse_string(s, j2) {
                            None => None,
                            Some((x, j3)) => {
                                let j4 = skip_ws(s, j3);
                                if j4 < s.len() && s[j4] == ',' && i < j4 {
                                    parse_list_members(s, j4 + 1, lid, Some(x), pct)
                                } else if j4 < s.len() && s[j4] == '}' && lid is Some
                                    && pct is Some {
                                    Some(
                                        (
                                            ListView {
                                                list_id: lid.unwrap(),
                                                name: x,
                                                bounty_payout_percentage: pct.unwrap(),
                                            },
                                            j4 + 1,
                                        ),
                                    )
                                } else {
                                    None
                                }
                            },
                        }
                    }
                } else if key == "bounty_payout_percentage"@ {
                    if pct is Some {
                        None
                    } else {
                        match spec_parse_u32(s, j2) {
                            None => None,
                            Some((x, j3)) => {
                                let j4 = skip_ws(s, j3);
                                if j4 < s.len() && s[j4] == ',' && i < j4 {
                                    parse_list_members(s, j4 + 1, lid, nm, Some(x))
                                } else if j4 < s.len() && s[j4] == '}' && lid is Some
                                    && nm is Some {
                                    Some(
                                        (
                                            ListView {
                                                list_id: lid.unwrap(),
                                                name: nm.unwrap(),
                                                bounty_payout_percentage: x,
                                            },
                                            j4 + 1,
                                        ),
                                    )
                                } else {
                                    None
                                }
                            },
                        }
                    }
                } else {
                    None
                }
            } else {
                None
            }
        },
    }
}

/// What parsing one list object at `i` yields.
pub open spec fn parse_list_obj(s: Seq<char>, i: int) -> Option<(ListView, int)> {
    if 0 <= i < s.len() && s[i] == '{' {
        parse_list_members(s, i + 1, None, None, None)
    } else {
        None
    }
}

/// What parsing the members of one card object yields.
pub open spec fn parse_card_members(
    s: Seq<char>,
    i: int,
    cid: Option<u32>,
    lid: Option<u32>,
    bty: Option<u64>,
) -> Option<(Card, int)>
    decreases s.len() - i,
{
    let i0 = skip_ws(s, i);
    match spec_parse_string(s, i0) {
        None => None,
        Some((key, j0)) => {
            let j1 = skip_ws(s, j0);
            if j1 < s.len() && s[j1] == ':' {
                let j2 = skip_ws(s, j1 + 1);
                if key == "card_id"@ {
                    if cid is Some {
                        None
                    } else {
                        match spec_parse_u32(s, j2) {
                            None => None,
                            Some((x, j3)) => {
                                let j4 = skip_ws(s, j3);
                                if j4 < s.len() && s[j4] == ',' && i < j4 {
                                    parse_card_members(s, j4 + 1, Some(x), lid, bty)
                                } else if j4 < s.len() && s[j4] == '}' && lid is Some
                                    && bty is Some {
                                    Some(
                                        (
                                            Card {
                                                card_id: x,
                                                list_id: lid.unwrap(),
                                                bounty: bty.unwrap(),
                                            },
                                            j4 + 1,
                                        ),
                                    )
                                } else {
                                    None
                                }
                            },
                        }
                    }
                } else if key == "list_id"@ {
                    if lid is Some {
                        None
                    } else {
                        match spec_parse_u32(s, j2) {
                            None => None,
                            Some((x, j3)) => {
                                let j4 = skip_ws(s, j3);
                                if j4 < s.len() && s[j4] == ',' && i < j4 {
                                    parse_card_members(s, j4 + 1, cid, Some(x), bty)
                                } else if j4 < s.len() && s[j4] == '}' && cid is Some
                                    && bty is Some {
                                    Some(
                                        (
                                            Card {
                                                card_id: cid.unwrap(),
                                                list_id: x,
                                                bounty: bty.unwrap(),
                                            },
                                            j4 + 1,
                                        ),
                                    )
                                } else {
                                    None
                                }
                            },
                        }
                    }
                } else if key == "bounty"@ {
                    if bty is Some {
                        None
                    } else {
                        match spec_parse_u64(s, j2) {
                            None => None,
                            Some((x, j3)) => {
                                let j4 = skip_ws(s, j3);
                                if j4 < s.len() && s[j4] == ',' && i < j4 {
                                    parse_card_members(s, j4 + 1, cid, lid, Some(x))
                                } else if j4 < s.len() && s[j4] == '}' && cid is Some
                                    && lid is Some {
                                    Some(
                                        (
                                            Card {
                                                card_id: cid.unwrap(),
                                                list_id: lid.unwrap(),
                                                bounty: x,
                                            },
                                            j4 + 1,
                                        ),
                                    )
                                } else {
                                    None
                                }
                            },
                        }
                    }
                } else {
                    None
                }
            } else {
                None
            }
        },
    }
}

/// What parsing one card object at `i` yields.
pub open spec fn parse_card_obj(s: Seq<char>, i: int) -> Option<(Card, int)> {
    if 0 <= i < s.len() && s[i] == '{' {
        parse_card_members(s, i + 1, None, None, None)
    } else {
        None
    }
}

/// What parsing the items of the members array at `i` yields, up to and
/// including the closing bracket.
pub open spec fn parse_members_items(s: Seq<char>, i: int) -> Option<(Seq<Seq<char>>, int)>
    decreases s.len() - i,
{
    let i0 = skip_ws(s, i);
    match spec_parse_string(s, i0) {
        None => None,
        Some((x, j)) => {
            let j1 = skip_ws(s, j);
            if j1 < s.len() && s[j1] == ',' && i < j1 {
                match parse_members_items(s, j1 + 1) {
                    None => None,
                    Some((xs, k)) => Some((seq![x] + xs, k)),
                }
            } else if j1 < s.len() && s[j1] == ']' {
                Some((seq![x], j1 + 1))
            } else {
                None
            }
        },
    }
}

/// What parsing the members array at `i` yields.
pub open spec fn parse_members(s: Seq<char>, i: int) -> Option<(Seq<Seq<char>>, int)> {
    if 0 <= i < s.len() && s[i] == '[' {
        if skip_ws(s, i + 1) < s.len() && s[skip_ws(s, i + 1)] == ']' {
            Some((Seq::empty(), skip_ws(s, i + 1) + 1))
        } else {
            parse_members_items(s, i + 1)
        }
    } else {
        None
    }
}

/// What parsing the items of the lists array at `i` yields.
pub open spec fn parse_lists_items(s: Seq<char>, i: int) -> Option<(Seq<ListView>, int)>
    decreases s.len() - i,
{
    let i0 = skip_ws(s, i);
    match parse_list_obj(s, i0) {
        None => None,
        Some((x, j)) => {
            let j1 = skip_ws(s, j);
            if j1 < s.len() && s[j1] == ',' && i < j1 {
                match parse_lists_items(s, j1 + 1) {
                    None => None,
                    Some((xs, k)) => Some((seq![x] + xs, k)),
                }
            } else if j1 < s.len() && s[j1] == ']' {
                Some((seq![x], j1 + 1))
            } else {
                None
            }
        },
    }
}

/// What parsing the lists array at `i` yields.
pub open spec fn parse_lists(s: Seq<char>, i: int) -> Option<(Seq<ListView>, int)> {
    if 0 <= i < s.len() && s[i] == '[' {
        if skip_ws(s, i + 1) < s.len() && s[skip_ws(s, i + 1)] == ']' {
            Some((Seq::empty(), skip_ws(s, i + 1) + 1))
        } else {
            parse_lists_items(s, i + 1)
        }
    } else {
        None
    }
}

/// What parsing the items of the cards array at `i` yields.
pub open spec fn parse_cards_items(s: Seq<char>, i: int) -> Option<(Seq<Card>, int)>
    decreases s.len() - i,
{
    let i0 = skip_ws(s, i);
    match parse_card_obj(s, i0) {
        None => None,
        Some((x, j)) => {
            let j1 = skip_ws(s, j);
            if j1 < s.len() && s[j1] == ',' && i < j1 {
                match parse_cards_items(s, j1 + 1) {
                    None => None,
                    Some((xs, k)) => Some((seq![x] + xs, k)),
                }
            } else if j1 < s.len() && s[j1] == ']' {
                Some((seq![x], j1 + 1))
            } else {
                None
            }
        },
    }
}

/// What parsing the cards array at `i` yields.
pub open spec fn parse_cards(s: Seq<char>, i: int) -> Option<(Seq<Card>, int)> {
    if 0 <= i < s.len() && s[i] == '[' {
        if skip_ws(s, i + 1) < s.len() && s[skip_ws(s, i + 1)] == ']' {
            Some((Seq::empty(), skip_ws(s, i + 1) + 1))
        } else {
            parse_cards_items(s, i + 1)
        }
    } else {
        None
    }
}

/// What parsing the members of the inner board object yields.
pub open spec fn parse_board_members(
    s: Seq<char>,
    i: int,
    seed: Option<u32>,
    url: Option<Seq<char>>,
    members: Option<Seq<Seq<char>>>,
    lists: Option<Seq<ListView>>,
    cards: Option<Seq<Card>>,
    currency: Option<Seq<char>>,
) -> Option<(BoardView, int)>
    decreases s.len() - i, 1int,
{
    let i0 = skip_ws(s, i);
    match spec_parse_string(s, i0) {
        None => None,
        Some((key, j0)) => {
            let j1 = skip_ws(s, j0);
            if j1 < s.len() && s[j1] == ':' {
                let j2 = skip_ws(s, j1 + 1);
                if key == "seed"@ {
                    if seed is Some {
                        None
                    } else {
                        match spec_parse_u32(s, j2) {
                            None => None,
                            Some((x, j3)) => board_members_step(
                                s,
                                i,
                                j3,
                                Some(x),
                                url,
                                members,
                                lists,
                                cards,
                                currency,
                            ),
                        }
                    }
                } else if key == "url"@ {
                    if url is Some {
                        None
                    } else {
                        match spec_parse_string(s, j2) {
                            None => None,
                            Some((x, j3)) => board_members_step(
                                s,
                                i,
                                j3,
                                seed,
                                Some(x),
                                members,
                                lists,
                                cards,
                                currency,
                            ),
                        }
                    }
                } else if key == "members"@ {
                    if members is Some {
                        None
                    } else {
                        match parse_members(s, j2) {
                            None => None,
                            Some((x, j3)) => board_members_step(
                                s,
                                i,
                                j3,
                                seed,
                                url,
                                Some(x),
                                lists,
                                cards,
                                currency,
                            ),
                        }
                    }
                } else if key == "lists"@ {
                    if lists is Some {
                        None
                    } else {
                        match parse_lists(s, j2) {
                            None => None,
                            Some((x, j3)) => board_members_step(
                                s,
                                i,
                                j3,
                                seed,
                                url,
                                members,
                                Some(x),
                                cards,
                                currency,
                            ),
                        }
                    }
                } else if key == "cards"@ {
                    if cards is Some {
                        None
                    } else {
                        match parse_cards(s, j2) {
                            None => None,
                            Some((x, j3)) => board_members_step(
                                s,
                                i,
                                j3,
                                seed,
                                url,
                                members,
                                lists,
                                Some(x),
                                currency,
                            ),
                        }
                    }
                } else if key == "currency"@ {
                    if currency is Some {
                        None
                    } else {
                        match spec_parse_string(s, j2) {
                            None => None,
                            Some((x, j3)) => board_members_step(
                                s,
                                i,
                                j3,
                                seed,
                                url,
                                members,
                                lists,
                                cards,
                                Some(x),
                            ),
                        }
                    }
                } else {
                    None
                }
            } else {
                None
            }
        },
    }
}

/// After one member of the inner board object: continue at a comma, or
/// close at a brace when every member has been seen.
pub open spec fn board_members_step(
    s: Seq<char>,
    i: int,
    j3: int,
    seed: Option<u32>,
    url: Option<Seq<char>>,
    members: Option<Seq<Seq<char>>>,
    lists: Option<Seq<ListView>>,
    cards: Option<Seq<Card>>,
    currency: Option<Seq<char>>,
) -> Option<(BoardView, int)>
    decreases s.len() - i, 0int,
{
    let j4 = skip_ws(s, j3);
    if j4 < s.len() && s[j4] == ',' && i < j4 {
        parse_board_members(s, j4 + 1, seed, url, members, lists, cards, currency)
    } else if j4 < s.len() && s[j4] == '}' && seed is Some && url is Some && members is Some
        && lists is Some && cards is Some && currency is Some {
        Some(
            (
                BoardView {
                    seed: seed.unwrap(),
                    url: url.unwrap(),
                    members: members.unwrap(),
                    lists: lists.unwrap(),
                    cards: cards.unwrap(),
                    currency: currency.unwrap(),
                },
                j4 + 1,
            ),
        )
    } else {
        None
    }
}

/// What parsing the board envelope at `i` yields: leading whitespace, the
/// envelope object with its single `Board` member, the inner object.
pub open spec fn parse_board(s: Seq<char>, i: int) -> Option<(BoardView, int)> {
    let i0 = skip_ws(s, i);
    if i0 < s.len() && s[i0] == '{' {
        let i1 = skip_ws(s, i0 + 1);
        match spec_parse_string(s, i1) {
            None => None,
            Some((key, j0)) => {
                if key == "Board"@ {
                    let j1 = skip_ws(s, j0);
                    if j1 < s.len() && s[j1] == ':' {
                        let j2 = skip_ws(s, j1 + 1);
                        if j2 < s.len() && s[j2] == '{' {
                            match parse_board_members(
                                s,
                                j2 + 1,
                                None,
                                None,
                                None,
                                None,
                                None,
                                None,
                            ) {
                                None => None,
                                Some((b, j3)) => {
                                    let j4 = skip_ws(s, j3);
                                    if j4 < s.len() && s[j4] == '}' {
                                        Some((b, j4 + 1))
                                    } else {
                                        None
                                    }
                                },
                            }
                        } else {
                            None
                        }
                    } else {
                        None
                    }
                } else {
                    None
                }
            },
        }
    } else {
        None
    }
}

/// What decoding a whole payload yields: the board whose JSON document the
/// payload is, with only whitespace allowed after it.
pub open spec fn spec_decode_board(s: Seq<char>) -> Option<BoardView> {
    match parse_board(s, 0) {
        Some((b, j)) => if skip_ws(s, j) == s.len() {
            Some(b)
        } else {
            None
        },
        None => None,
    }
}

/// Splitting a range of `s` at an inner point splits its text.
pub proof fn lemma_concat_split(s: Seq<char>, i: int, m: int, j: int)
    requires
        0 <= i <= m <= j <= s.len(),
    ensures
        s.subrange(i, j) == s.subrange(i, m) + s.subrange(m, j),
{
    assert(s.subrange(i, j) =~= s.subrange(i, m) + s.subrange(m, j));
}

/// A range inside a known range carries the matching part of its text.
pub proof fn lemma_subrange_of_subrange(s: Seq<char>, i: int, j: int, a: int, b: int)
    requires
        0 <= i <= a <= b <= j <= s.len(),
    ensures
        s.subrange(a, b) == s.subrange(i, j).subrange(a - i, b - i),
{
    assert(s.subrange(a, b) =~= s.subrange(i, j).subrange(a - i, b - i));
}


/// Every string of the board is made of Unicode scalar values: true of the
/// view of every real board.
pub open spec fn board_strings_scalar(b: BoardView) -> bool {
    &&& scalar_values(b.url)
    &&& scalar_values(b.currency)
    &&& forall|k: int| 0 <= k < b.members.len() ==> scalar_values(#[trigger] b.members[k])
    &&& forall|k: int| 0 <= k < b.lists.len() ==> scalar_values((#[trigger] b.lists[k]).name)
}

/// At the canonical JSON text of a list object, parsing yields exactly
/// that list.
#[verifier::rlimit(100)]
pub proof fn lemma_parse_list_obj_of(s: Seq<char>, i: int, l: ListView)
    requires
        scalar_values(l.name),
        0 <= i,
        i + json_of_list(l).len() <= s.len(),
        s.subrange(i, i + json_of_list(l).len()) == json_of_list(l),
    ensures
        parse_list_obj(s, i) == Some((l, i + json_of_list(l).len())),
{
    let w = json_of_list(l);
    let l1 = "{\"list_id\":"@;
    let d1 = dec_digits(l.list_id as nat);
    let l2 = ",\"name\":"@;
    let q = json_string(l.name);
    let l3 = ",\"bounty_payout_percentage\":"@;
    let d2 = dec_digits(l.bounty_payout_percentage as nat);
    let l4 = "}"@;
    let o1 = l1.len() as int;
    let o2 = o1 + d1.len();
    let o3 = o2 + l2.len();
    let o4 = o3 + q.len();
    let o5 = o4 + l3.len();
    let o6 = o5 + d2.len();
    let o7 = o6 + l4.len();
    assert(w.len() == o7);
    assert(w.subrange(0, o1) =~= l1);
    assert(w.subrange(o1, o2) =~= d1);
    assert(w.subrange(o2, o3) =~= l2);
    assert(w.subrange(o3, o4) =~= q);
    assert(w.subrange(o4, o5) =~= l3);
    assert(w.subrange(o5, o6) =~= d2);
    assert(w.subrange(o6, o7) =~= l4);
    lemma_subrange_of_subrange(s, i, i + o7, i, i + o1);
    lemma_subrange_of_subrange(s, i, i + o7, i + o1, i + o2);
    lemma_subrange_of_subrange(s, i, i + o7, i + o2, i + o3);
    lemma_subrange_of_subrange(s, i, i + o7, i + o3, i + o4);
    lemma_subrange_of_subrange(s, i, i + o7, i + o4, i + o5);
    lemma_subrange_of_subrange(s, i, i + o7, i + o5, i + o6);
    lemma_subrange_of_subrange(s, i, i + o7, i + o6, i + o7);
    reveal_strlit("{\"list_id\":");
    reveal_strlit(",\"name\":");
    reveal_strlit(",\"bounty_payout_percentage\":");
    reveal_strlit("}");
    reveal_strlit("list_id");
    reveal_strlit("name");
    reveal_strlit("bounty_payout_percentage");
    lemma_esc_plain("list_id"@);
    lemma_esc_plain("name"@);
    lemma_esc_plain("bounty_payout_percentage"@);
    lemma_dec_digits(l.list_id as nat);
    lemma_dec_digits(l.bounty_payout_percentage as nat);
    // the three keys, as string literals in place
    assert forall|k: int| 0 <= k < 9 implies #[trigger] s.subrange(i + 1, i + 10)[k]
        == json_string("list_id"@)[k] by {
        assert(s.subrange(i + 1, i + 10)[k] == s[i + 1 + k]);
        assert(s.subrange(i, i + o1)[i + 1 + k - (i)] == s[i + 1 + k]);
    }
    assert(s.subrange(i + 1, i + 10) =~= json_string("list_id"@));
    assert forall|k: int| 0 <= k < 6 implies #[trigger] s.subrange(i + o2 + 1, i + o2 + 7)[k]
        == json_string("name"@)[k] by {
        assert(s.subrange(i + o2 + 1, i + o2 + 7)[k] == s[i + o2 + 1 + k]);
        assert(s.subrange(i + o2, i + o3)[i + o2 + 1 + k - (i + o2)] == s[i + o2 + 1 + k]);
    }
    assert(s.subrange(i + o2 + 1, i + o2 + 7) =~= json_string("name"@));
    assert forall|k: int| 0 <= k < 26 implies #[trigger] s.subrange(i + o4 + 1, i + o4 + 27)[k]
        == json_string("bounty_payout_percentage"@)[k] by {
        assert(s.subrange(i + o4 + 1, i + o4 + 27)[k] == s[i + o4 + 1 + k]);
        assert(s.subrange(i + o4, i + o5)[i + o4 + 1 + k - (i + o4)] == s[i + o4 + 1 + k]);
    }
    assert(s.subrange(i + o4 + 1, i + o4 + 27) =~= json_string("bounty_payout_percentage"@));
    assert(scalar_values("list_id"@));
    assert(scalar_values("name"@));
    assert(scalar_values("bounty_payout_percentage"@));
    lemma_parse_string_of(s, i + 1, "list_id"@);
    lemma_parse_string_of(s, i + o2 + 1, "name"@);
    lemma_parse_string_of(s, i + o4 + 1, "bounty_payout_percentage"@);
    lemma_parse_string_of(s, i + o3, l.name);
    // bridge each salient position into its segment
    assert(s[i] == s.subrange(i, i + o1)[0]);
    assert(s[i + 1] == s.subrange(i, i + o1)[1]);
    assert(s[i + 10] == s.subrange(i, i + o1)[10]);
    assert(s[i + o1] == s.subrange(i + o1, i + o2)[0]);
    assert(s[i + o2] == s.subrange(i + o2, i + o3)[0]);
    assert(s[i + o2 + 1] == s.subrange(i + o2, i + o3)[1]);
    assert(s[i + o3 - 1] == s.subrange(i + o2, i + o3)[o3 - o2 - 1]);
    assert(s[i + o3] == s.subrange(i + o3, i + o4)[0]);
    assert(s[i + o4] == s.subrange(i + o4, i + o5)[0]);
    assert(s[i + o4 + 1] == s.subrange(i + o4, i + o5)[1]);
    assert(s[i + o5 - 1] == s.subrange(i + o4, i + o5)[o5 - o4 - 1]);
    assert(s[i + o5] == s.subrange(i + o5, i + o6)[0]);
    assert(s[i + o6] == s.subrange(i + o6, i + o7)[0]);
    // salient characters
    assert(s[i] == '{' && s[i + 10] == ':' && s[i + o2] == ',' && s[i + o3 - 1] == ':');
    assert(s[i + o4] == ',' && s[i + o5 - 1] == ':' && s[i + o6] == '}');
    assert(s[i + 1] == '"' && s[i + o2 + 1] == '"' && s[i + o4 + 1] == '"' && s[i + o3] == '"');
    assert(is_digit(s[i + o1]) && is_digit(s[i + o5])) by {
        assert(s[i + o1] == d1[0] && s[i + o5] == d2[0]);
    }
    lemma_parse_u32_of_encoding(s, i + o1, l.list_id);
    lemma_parse_u32_of_encoding(s, i + o5, l.bounty_payout_percentage);
    // whitespace skips are all identities
    assert(skip_ws(s, i + 1) == i + 1);
    assert(skip_ws(s, i + 10) == i + 10);
    assert(skip_ws(s, i + o1) == i + o1);
    assert(skip_ws(s, i + o2) == i + o2);
    assert(skip_ws(s, i + o2 + 1) == i + o2 + 1);
    assert(skip_ws(s, i + o3 - 1) == i + o3 - 1);
    assert(skip_ws(s, i + o3) == i + o3);
    assert(skip_ws(s, i + o4) == i + o4);
    assert(skip_ws(s, i + o4 + 1) == i + o4 + 1);
    assert(skip_ws(s, i + o5 - 1) == i + o5 - 1);
    assert(skip_ws(s, i + o5) == i + o5);
    assert(skip_ws(s, i + o6) == i + o6);
    // the three keys differ
    assert("list_id"@ != "name"@ && "bounty_payout_percentage"@ != "list_id"@
        && "bounty_payout_percentage"@ != "name"@);
    // member walk, innermost first
    assert(parse_list_members(s, i + o4 + 1, Some(l.list_id), Some(l.name), None) == Some(
        (l, i + o7),
    ));
    assert(parse_list_members(s, i + o2 + 1, Some(l.list_id), None, None) == Some((l, i + o7)));
    assert(parse_list_members(s, i + 1, None, None, None) == Some((l, i + o7)));
}

/// At the canonical JSON text of a card object, parsing yields exactly
/// that card.
#[verifier::rlimit(100)]
pub proof fn lemma_parse_card_obj_of(s: Seq<char>, i: int, c: Card)
    requires
        0 <= i,
        i + json_of_card(c).len() <= s.len(),
        s.subrange(i, i + json_of_card(c).len()) == json_of_card(c),
    ensures
        parse_card_obj(s, i) == Some((c, i + json_of_card(c).len())),
{
    let w = json_of_card(c);
    let l1 = "{\"card_id\":"@;
    let d1 = dec_digits(c.card_id as nat);
    let l2 = ",\"list_id\":"@;
    let d2 = dec_digits(c.list_id as nat);
    let l3 = ",\"bounty\":"@;
    let d3 = dec_digits(c.bounty as nat);
    let l4 = "}"@;
    let o1 = l1.len() as int;
    let o2 = o1 + d1.len();
    let o3 = o2 + l2.len();
    let o4 = o3 + d2.len();
    let o5 = o4 + l3.len();
    let o6 = o5 + d3.len();
    let o7 = o6 + l4.len();
    assert(w.len() == o7);
    assert(w.subrange(0, o1) =~= l1);
    assert(w.subrange(o1, o2) =~= d1);
    assert(w.subrange(o2, o3) =~= l2);
    assert(w.subrange(o3, o4) =~= d2);
    assert(w.subrange(o4, o5) =~= l3);
    assert(w.subrange(o5, o6) =~= d3);
    assert(w.subrange(o6, o7) =~= l4);
    lemma_subrange_of_subrange(s, i, i + o7, i, i + o1);
    lemma_subrange_of_subrange(s, i, i + o7, i + o1, i + o2);
    lemma_subrange_of_subrange(s, i, i + o7, i + o2, i + o3);
    lemma_subrange_of_subrange(s, i, i + o7, i + o3, i + o4);
    lemma_subrange_of_subrange(s, i, i + o7, i + o4, i + o5);
    lemma_subrange_of_subrange(s, i, i + o7, i + o5, i + o6);
    lemma_subrange_of_subrange(s, i, i + o7, i + o6, i + o7);
    reveal_strlit("{\"card_id\":");
    reveal_strlit(",\"list_id\":");
    reveal_strlit(",\"bounty\":");
    reveal_strlit("}");
    reveal_strlit("card_id");
    reveal_strlit("list_id");
    reveal_strlit("bounty");
    lemma_esc_plain("card_id"@);
    lemma_esc_plain("list_id"@);
    lemma_esc_plain("bounty"@);
    lemma_dec_digits(c.card_id as nat);
    lemma_dec_digits(c.list_id as nat);
    lemma_dec_digits(c.bounty as nat);
    assert forall|k: int| 0 <= k < 9 implies #[trigger] s.subrange(i + 1, i + 10)[k]
        == json_string("card_id"@)[k] by {
        assert(s.subrange(i + 1, i + 10)[k] == s[i + 1 + k]);
        assert(s.subrange(i, i + o1)[i + 1 + k - (i)] == s[i + 1 + k]);
    }
    assert(s.subrange(i + 1, i + 10) =~= json_string("card_id"@));
    assert forall|k: int| 0 <= k < 9 implies #[trigger] s.subrange(i + o2 + 1, i + o2 + 10)[k]
        == json_string("list_id"@)[k] by {
        assert(s.subrange(i + o2 + 1, i + o2 + 10)[k] == s[i + o2 + 1 + k]);
        assert(s.subrange(i + o2, i + o3)[i + o2 + 1 + k - (i + o2)] == s[i + o2 + 1 + k]);
    }
    assert(s.subrange(i + o2 + 1, i + o2 + 10) =~= json_string("list_id"@));
    assert forall|k: int| 0 <= k < 8 implies #[trigger] s.subrange(i + o4 + 1, i + o4 + 9)[k]
        == json_string("bounty"@)[k] by {
        assert(s.subrange(i + o4 + 1, i + o4 + 9)[k] == s[i + o4 + 1 + k]);
        assert(s.subrange(i + o4, i + o5)[i + o4 + 1 + k - (i + o4)] == s[i + o4 + 1 + k]);
    }
    assert(s.subrange(i + o4 + 1, i + o4 + 9) =~= json_string("bounty"@));
    assert(scalar_values("card_id"@));
    assert(scalar_values("list_id"@));
    assert(scalar_values("bounty"@));
    lemma_parse_string_of(s, i + 1, "card_id"@);
    lemma_parse_string_of(s, i + o2 + 1, "list_id"@);
    lemma_parse_string_of(s, i + o4 + 1, "bounty"@);
    assert(s[i] == s.subrange(i, i + o1)[0]);
    assert(s[i + 1] == s.subrange(i, i + o1)[1]);
    assert(s[i + 10] == s.subrange(i, i + o1)[10]);
    assert(s[i + o1] == s.subrange(i + o1, i + o2)[0]);
    assert(s[i + o2] == s.subrange(i + o2, i + o3)[0]);
    assert(s[i + o2 + 1] == s.subrange(i + o2, i + o3)[1]);
    assert(s[i + o3 - 1] == s.subrange(i + o2, i + o3)[o3 - o2 - 1]);
    assert(s[i + o3] == s.subrange(i + o3, i + o4)[0]);
    assert(s[i + o4] == s.subrange(i + o4, i + o5)[0]);
    assert(s[i + o4 + 1] == s.subrange(i + o4, i + o5)[1]);
    assert(s[i + o5 - 1] == s.subrange(i + o4, i + o5)[o5 - o4 - 1]);
    assert(s[i + o5] == s.subrange(i + o5, i + o6)[0]);
    assert(s[i + o6] == s.subrange(i + o6, i + o7)[0]);
    assert(s[i] == '{' && s[i + 10] == ':' && s[i + o2] == ',' && s[i + o3 - 1] == ':');
    assert(s[i + o4] == ',' && s[i + o5 - 1] == ':' && s[i + o6] == '}');
    assert(s[i + 1] == '"' && s[i + o2 + 1] == '"' && s[i + o4 + 1] == '"');
    assert(is_digit(s[i + o1]) && is_digit(s[i + o3]) && is_digit(s[i + o5])) by {
        assert(s[i + o1] == d1[0] && s[i + o3] == d2[0] && s[i + o5] == d3[0]);
    }
    lemma_parse_u32_of_encoding(s, i + o1, c.card_id);
    lemma_parse_u32_of_encoding(s, i + o3, c.list_id);
    lemma_parse_u64_of_encoding(s, i + o5, c.bounty);
    assert(skip_ws(s, i + 1) == i + 1);
    assert(skip_ws(s, i + 10) == i + 10);
    assert(skip_ws(s, i + o1) == i + o1);
    assert(skip_ws(s, i + o2) == i + o2);
    assert(skip_ws(s, i + o2 + 1) == i + o2 + 1);
    assert(skip_ws(s, i + o3 - 1) == i + o3 - 1);
    assert(skip_ws(s, i + o3) == i + o3);
    assert(skip_ws(s, i + o4) == i + o4);
    assert(skip_ws(s, i + o4 + 1) == i + o4 + 1);
    assert(skip_ws(s, i + o5 - 1) == i + o5 - 1);
    assert(skip_ws(s, i + o5) == i + o5);
    assert(skip_ws(s, i + o6) == i + o6);
    assert("card_id"@ != "list_id"@ && "bounty"@ != "card_id"@ && "bounty"@ != "list_id"@);
    assert(parse_card_members(s, i + o4 + 1, Some(c.card_id), Some(c.list_id), None) == Some(
        (c, i + o7),
    ));
    assert(parse_card_members(s, i + o2 + 1, Some(c.card_id), None, None) == Some((c, i + o7)));
    assert(parse_card_members(s, i + 1, None, None, None) == Some((c, i + o7)));
}

/// At the item texts of a non-empty members array, followed by the closing
/// bracket, parsing yields exactly those members.
pub proof fn lemma_parse_members_items_of(s: Seq<char>, i: int, ms: Seq<Seq<char>>)
    requires
        ms.len() >= 1,
        forall|k: int| 0 <= k < ms.len() ==> scalar_values(#[trigger] ms[k]),
        0 <= i,
        i + members_items(ms).len() + 1 <= s.len(),
        s.subrange(i, i + members_items(ms).len() + 1) == members_items(ms) + seq![']'],
    ensures
        parse_members_items(s, i) == Some((ms, i + members_items(ms).len() + 1)),
    decreases ms.len(),
{
    let w = s.subrange(i, i + members_items(ms).len() + 1);
    let q = json_string(ms[0]);
    assert(s[i] == w[0] && w[0] == '"');
    assert(skip_ws(s, i) == i);
    if ms.len() == 1 {
        assert(members_items(ms) == q);
        assert(s.subrange(i, i + q.len()) =~= q) by {
            assert forall|k: int| 0 <= k < q.len() implies s[i + k] == q[k] by {
                assert(s[i + k] == w[k]);
            }
        }
        lemma_parse_string_of(s, i, ms[0]);
        assert(s[i + q.len()] == w[q.len() as int] && w[q.len() as int] == ']');
        assert(skip_ws(s, i + q.len()) == i + q.len());
        assert(seq![ms[0]] =~= ms);
    } else {
        let rest = ms.drop_first();
        assert(forall|k: int| 0 <= k < rest.len() ==> #[trigger] rest[k] == ms[k + 1]);
        assert(members_items(ms) == q + seq![','] + members_items(rest));
        assert(s.subrange(i, i + q.len()) =~= q) by {
            assert forall|k: int| 0 <= k < q.len() implies s[i + k] == q[k] by {
                assert(s[i + k] == w[k]);
            }
        }
        lemma_parse_string_of(s, i, ms[0]);
        let j = i + q.len();
        assert(s[j] == w[q.len() as int] && w[q.len() as int] == ',');
        assert(skip_ws(s, j) == j);
        assert(s.subrange(j + 1, j + 1 + members_items(rest).len() + 1) =~= members_items(rest)
            + seq![']']) by {
            assert forall|k: int| 0 <= k < members_items(rest).len() + 1 implies s[j + 1 + k] == (
            members_items(rest) + seq![']'])[k] by {
                assert(s[j + 1 + k] == w[q.len() + 1 + k]);
            }
        }
        lemma_parse_members_items_of(s, j + 1, rest);
        assert(seq![ms[0]] + rest =~= ms);
    }
}

/// At the item texts of a non-empty lists array, followed by the closing
/// bracket, parsing yields exactly those lists.
pub proof fn lemma_parse_lists_items_of(s: Seq<char>, i: int, ls: Seq<ListView>)
    requires
        ls.len() >= 1,
        forall|k: int| 0 <= k < ls.len() ==> scalar_values((#[trigger] ls[k]).name),
        0 <= i,
        i + lists_items(ls).len() + 1 <= s.len(),
        s.subrange(i, i + lists_items(ls).len() + 1) == lists_items(ls) + seq![']'],
    ensures
        parse_lists_items(s, i) == Some((ls, i + lists_items(ls).len() + 1)),
    decreases ls.len(),
{
    let w = s.subrange(i, i + lists_items(ls).len() + 1);
    let q = json_of_list(ls[0]);
    reveal_strlit("{\"list_id\":");
    assert(q[0] == '{');
    assert(s[i] == w[0] && w[0] == '{');
    assert(skip_ws(s, i) == i);
    if ls.len() == 1 {
        assert(lists_items(ls) == q);
        assert(s.subrange(i, i + q.len()) =~= q) by {
            assert forall|k: int| 0 <= k < q.len() implies s[i + k] == q[k] by {
                assert(s[i + k] == w[k]);
            }
        }
        lemma_parse_list_obj_of(s, i, ls[0]);
        assert(s[i + q.len()] == w[q.len() as int] && w[q.len() as int] == ']');
        assert(skip_ws(s, i + q.len()) == i + q.len());
        assert(seq![ls[0]] =~= ls);
    } else {
        let rest = ls.drop_first();
        assert(forall|k: int| 0 <= k < rest.len() ==> #[trigger] rest[k] == ls[k + 1]);
        assert(lists_items(ls) == q + seq![','] + lists_items(rest));
        assert(s.subrange(i, i + q.len()) =~= q) by {
            assert forall|k: int| 0 <= k < q.len() implies s[i + k] == q[k] by {
                assert(s[i + k] == w[k]);
            }
        }
        lemma_parse_list_obj_of(s, i, ls[0]);
        let j = i + q.len();
        assert(s[j] == w[q.len() as int] && w[q.len() as int] == ',');
        assert(skip_ws(s, j) == j);
        assert(s.subrange(j + 1, j + 1 + lists_items(rest).len() + 1) =~= lists_items(rest)
            + seq![']']) by {
            assert forall|k: int| 0 <= k < lists_items(rest).len() + 1 implies s[j + 1 + k] == (
            lists_items(rest) + seq![']'])[k] by {
                assert(s[j + 1 + k] == w[q.len() + 1 + k]);
            }
        }
        lemma_parse_lists_items_of(s, j + 1, rest);
        assert(seq![ls[0]] + rest =~= ls);
    }
}

/// At the item texts of a non-empty cards array, followed by the closing
/// bracket, parsing yields exactly those cards.
pub proof fn lemma_parse_cards_items_of(s: Seq<char>, i: int, cs: Seq<Card>)
    requires
        cs.len() >= 1,
        0 <= i,
        i + cards_items(cs).len() + 1 <= s.len(),
        s.subrange(i, i + cards_items(cs).len() + 1) == cards_items(cs) + seq![']'],
    ensures
        parse_cards_items(s, i) == Some((cs, i + cards_items(cs).len() + 1)),
    decreases cs.len(),
{
    let w = s.subrange(i, i + cards_items(cs).len() + 1);
    let q = json_of_card(cs[0]);
    reveal_strlit("{\"card_id\":");
    assert(q[0] == '{');
    assert(s[i] == w[0] && w[0] == '{');
    assert(skip_ws(s, i) == i);
    if cs.len() == 1 {
        assert(cards_items(cs) == q);
        assert(s.subrange(i, i + q.len()) =~= q) by {
            assert forall|k: int| 0 <= k < q.len() implies s[i + k] == q[k] by {
                assert(s[i + k] == w[k]);
            }
        }
        lemma_parse_card_obj_of(s, i, cs[0]);
        assert(s[i + q.len()] == w[q.len() as int] && w[q.len() as int] == ']');
        assert(skip_ws(s, i + q.len()) == i + q.len());
        assert(seq![cs[0]] =~= cs);
    } else {
        let rest = cs.drop_first();
        assert(cards_items(cs) == q + seq![','] + cards_items(rest));
        assert(s.subrange(i, i + q.len()) =~= q) by {
            assert forall|k: int| 0 <= k < q.len() implies s[i + k] == q[k] by {
                assert(s[i + k] == w[k]);
            }
        }
        lemma_parse_card_obj_of(s, i, cs[0]);
        let j = i + q.len();
        assert(s[j] == w[q.len() as int] && w[q.len() as int] == ',');
        assert(skip_ws(s, j) == j);
        assert(s.subrange(j + 1, j + 1 + cards_items(rest).len() + 1) =~= cards_items(rest)
            + seq![']']) by {
            assert forall|k: int| 0 <= k < cards_items(rest).len() + 1 implies s[j + 1 + k] == (
            cards_items(rest) + seq![']'])[k] by {
                assert(s[j + 1 + k] == w[q.len() + 1 + k]);
            }
        }
        lemma_parse_cards_items_of(s, j + 1, rest);
        assert(seq![cs[0]] + rest =~= cs);
    }
}

/// At the canonical JSON text of a members array, parsing yields exactly
/// those members.
pub proof fn lemma_parse_members_of(s: Seq<char>, i: int, ms: Seq<Seq<char>>)
    requires
        forall|k: int| 0 <= k < ms.len() ==> scalar_values(#[trigger] ms[k]),
        0 <= i,
        i + json_of_members(ms).len() <= s.len(),
        s.subrange(i, i + json_of_members(ms).len()) == json_of_members(ms),
    ensures
        parse_members(s, i) == Some((ms, i + json_of_members(ms).len())),
{
    let w = s.subrange(i, i + json_of_members(ms).len());
    assert(s[i] == w[0] && w[0] == '[');
    if ms.len() == 0 {
        assert(members_items(ms).len() == 0);
        assert(s[i + 1] == w[1] && w[1] == ']');
        assert(skip_ws(s, i + 1) == i + 1);
    } else {
        assert(members_items(ms)[0] == json_string(ms[0])[0]);
        assert(s[i + 1] == w[1] && w[1] == '"');
        assert(skip_ws(s, i + 1) == i + 1);
        assert(s.subrange(i + 1, i + 1 + members_items(ms).len() + 1) =~= members_items(ms)
            + seq![']']) by {
            assert forall|k: int| 0 <= k < members_items(ms).len() + 1 implies s[i + 1 + k] == (
            members_items(ms) + seq![']'])[k] by {
                assert(s[i + 1 + k] == w[1 + k]);
            }
        }
        lemma_parse_members_items_of(s, i + 1, ms);
    }
}

/// At the canonical JSON text of a lists array, parsing yields exactly
/// those lists.
pub proof fn lemma_parse_lists_of(s: Seq<char>, i: int, ls: Seq<ListView>)
    requires
        forall|k: int| 0 <= k < ls.len() ==> scalar_values((#[trigger] ls[k]).name),
        0 <= i,
        i + json_of_lists(ls).len() <= s.len(),
        s.subrange(i, i + json_of_lists(ls).len()) == json_of_lists(ls),
    ensures
        parse_lists(s, i) == Some((ls, i + json_of_lists(ls).len())),
{
    let w = s.subrange(i, i + json_of_lists(ls).len());
    assert(s[i] == w[0] && w[0] == '[');
    if ls.len() == 0 {
        assert(lists_items(ls).len() == 0);
        assert(s[i + 1] == w[1] && w[1] == ']');
        assert(skip_ws(s, i + 1) == i + 1);
    } else {
        reveal_strlit("{\"list_id\":");
        assert(json_of_list(ls[0])[0] == '{');
        assert(lists_items(ls)[0] == json_of_list(ls[0])[0]);
        assert(s[i + 1] == w[1] && w[1] == '{');
        assert(skip_ws(s, i + 1) == i + 1);
        assert(s.subrange(i + 1, i + 1 + lists_items(ls).len() + 1) =~= lists_items(ls)
            + seq![']']) by {
            assert forall|k: int| 0 <= k < lists_items(ls).len() + 1 implies s[i + 1 + k] == (
            lists_items(ls) + seq![']'])[k] by {
                assert(s[i + 1 + k] == w[1 + k]);
            }
        }
        lemma_parse_lists_items_of(s, i + 1, ls);
    }
}

/// At the canonical JSON text of a cards array, parsing yields exactly
/// those cards.
pub proof fn lemma_parse_cards_of(s: Seq<char>, i: int, cs: Seq<Card>)
    requires
        0 <= i,
        i + json_of_cards(cs).len() <= s.len(),
        s.subrange(i, i + json_of_cards(cs).len()) == json_of_cards(cs),
    ensures
        parse_cards(s, i) == Some((cs, i + json_of_cards(cs).len())),
{
    let w = s.subrange(i, i + json_of_cards(cs).len());
    assert(s[i] == w[0] && w[0] == '[');
    if cs.len() == 0 {
        assert(cards_items(cs).len() == 0);
        assert(s[i + 1] == w[1] && w[1] == ']');
        assert(skip_ws(s, i + 1) == i + 1);
    } else {
        reveal_strlit("{\"card_id\":");
        assert(json_of_card(cs[0])[0] == '{');
        assert(cards_items(cs)[0] == json_of_card(cs[0])[0]);
        assert(s[i + 1] == w[1] && w[1] == '{');
        assert(skip_ws(s, i + 1) == i + 1);
        assert(s.subrange(i + 1, i + 1 + cards_items(cs).len() + 1) =~= cards_items(cs)
            + seq![']']) by {
            assert forall|k: int| 0 <= k < cards_items(cs).len() + 1 implies s[i + 1 + k] == (
            cards_items(cs) + seq![']'])[k] by {
                assert(s[i + 1 + k] == w[1 + k]);
            }
        }
        lemma_parse_cards_items_of(s, i + 1, cs);
    }
}


/// Walks the last two members of the inner board object: the cards and
/// the currency, in canonical order.
#[verifier::rlimit(100)]
proof fn lemma_board_members_walk_c(
    s: Seq<char>,
    i: int,
    b: BoardView,
    o2: int,
    o3: int,
    o4: int,
    o5: int,
    o6: int,
    o7: int,
    o8: int,
    o9: int,
    o10: int,
    o11: int,
    o12: int,
)
    requires
        0 <= i,
        i + o12 + 1 <= s.len(),
        17 < o2 && o2 + 7 == o3 && o3 < o4 && o4 + 11 == o5 && o5 < o6 && o6 + 9 == o7 && o7 < o8
            && o8 + 9 == o9 && o9 < o10 && o10 + 12 == o11 && o11 < o12,
        spec_parse_string(s, i + o8 + 1) == Some(("cards"@, i + o9 - 1)),
        parse_cards(s, i + o9) == Some((b.cards, i + o10)),
        spec_parse_string(s, i + o10 + 1) == Some(("currency"@, i + o11 - 1)),
        spec_parse_string(s, i + o11) == Some((b.currency, i + o12)),
        s[i + o9 - 1] == ':' && s[i + o11 - 1] == ':',
        s[i + o10] == ',',
        s[i + o8 + 1] == '"' && s[i + o10 + 1] == '"',
        s[i + o11] == '"',
        s[i + o9] == '[',
        s[i + o12] == '}',
    ensures
        parse_board_members(s, i + o8 + 1, Some(b.seed), Some(b.url), Some(b.members),
            Some(b.lists), None, None) == Some((b, i + o12 + 1)),
{
    assert(skip_ws(s, i + o8 + 1) == i + o8 + 1);
    assert(skip_ws(s, i + o9 - 1) == i + o9 - 1);
    assert(skip_ws(s, i + o9) == i + o9);
    assert(skip_ws(s, i + o10) == i + o10);
    assert(skip_ws(s, i + o10 + 1) == i + o10 + 1);
    assert(skip_ws(s, i + o11 - 1) == i + o11 - 1);
    assert(skip_ws(s, i + o11) == i + o11);
    assert(skip_ws(s, i + o12) == i + o12);
    reveal_strlit("seed");
    reveal_strlit("url");
    reveal_strlit("members");
    reveal_strlit("lists");
    reveal_strlit("cards");
    reveal_strlit("currency");
    assert("cards"@ != "seed"@) by {
        assert("cards"@.len() != "seed"@.len());
    }
    assert("cards"@ != "url"@) by {
        assert("cards"@.len() != "url"@.len());
    }
    assert("cards"@ != "members"@) by {
        assert("cards"@.len() != "members"@.len());
    }
    assert("cards"@ != "lists"@) by {
        assert("cards"@[0] != "lists"@[0]);
    }
    assert("currency"@ != "seed"@) by {
        assert("currency"@.len() != "seed"@.len());
    }
    assert("currency"@ != "url"@) by {
        assert("currency"@.len() != "url"@.len());
    }
    assert("currency"@ != "members"@) by {
        assert("currency"@.len() != "members"@.len());
    }
    assert("currency"@ != "lists"@) by {
        assert("currency"@.len() != "lists"@.len());
    }
    assert("currency"@ != "cards"@) by {
        assert("currency"@.len() != "cards"@.len());
    }
    let e = i + o12 + 1;
    assert(board_members_step(s, i + o10 + 1, i + o12, Some(b.seed), Some(b.url), Some(b.members),
        Some(b.lists), Some(b.cards), Some(b.currency)) == Some((b, e)));
    assert(parse_board_members(s, i + o10 + 1, Some(b.seed), Some(b.url), Some(b.members),
        Some(b.lists), Some(b.cards), None) == Some((b, e)));
    assert(board_members_step(s, i + o8 + 1, i + o10, Some(b.seed), Some(b.url), Some(b.members),
        Some(b.lists), Some(b.cards), None) == Some((b, e)));
    assert(parse_board_members(s, i + o8 + 1, Some(b.seed), Some(b.url), Some(b.members),
        Some(b.lists), None, None) == Some((b, e)));
}

/// Walks the third and fourth members of the inner board object: the
/// member names and the lists, in canonical order.
#[verifier::rlimit(100)]
proof fn lemma_board_members_walk_b(
    s: Seq<char>,
    i: int,
    b: BoardView,
    o2: int,
    o3: int,
    o4: int,
    o5: int,
    o6: int,
    o7: int,
    o8: int,
    o9: int,
    o10: int,
    o11: int,
    o12: int,
)
    requires
        0 <= i,
        i + o12 + 1 <= s.len(),
        17 < o2 && o2 + 7 == o3 && o3 < o4 && o4 + 11 == o5 && o5 < o6 && o6 + 9 == o7 && o7 < o8
            && o8 + 9 == o9 && o9 < o10 && o10 + 12 == o11 && o11 < o12,
        spec_parse_string(s, i + o4 + 1) == Some(("members"@, i + o5 - 1)),
        parse_members(s, i + o5) == Some((b.members, i + o6)),
        spec_parse_string(s, i + o6 + 1) == Some(("lists"@, i + o7 - 1)),
        parse_lists(s, i + o7) == Some((b.lists, i + o8)),
        s[i + o5 - 1] == ':' && s[i + o7 - 1] == ':',
        s[i + o6] == ',' && s[i + o8] == ',',
        s[i + o4 + 1] == '"' && s[i + o6 + 1] == '"',
        s[i + o5] == '[' && s[i + o7] == '[',
        parse_board_members(s, i + o8 + 1, Some(b.seed), Some(b.url), Some(b.members),
            Some(b.lists), None, None) == Some((b, i + o12 + 1)),
    ensures
        parse_board_members(s, i + o4 + 1, Some(b.seed), Some(b.url), None, None, None, None)
            == Some((b, i + o12 + 1)),
{
    assert(skip_ws(s, i + o4 + 1) == i + o4 + 1);
    assert(skip_ws(s, i + o5 - 1) == i + o5 - 1);
    assert(skip_ws(s, i + o5) == i + o5);
    assert(skip_ws(s, i + o6) == i + o6);
    assert(skip_ws(s, i + o6 + 1) == i + o6 + 1);
    assert(skip_ws(s, i + o7 - 1) == i + o7 - 1);
    assert(skip_ws(s, i + o7) == i + o7);
    assert(skip_ws(s, i + o8) == i + o8);
    reveal_strlit("seed");
    reveal_strlit("url");
    reveal_strlit("members");
    reveal_strlit("lists");
    assert("members"@ != "seed"@) by {
        assert("members"@.len() != "seed"@.len());
    }
    assert("members"@ != "url"@) by {
        assert("members"@.len() != "url"@.len());
    }
    assert("lists"@ != "seed"@) by {
        assert("lists"@.len() != "seed"@.len());
    }
    assert("lists"@ != "url"@) by {
        assert("lists"@.len() != "url"@.len());
    }
    assert("lists"@ != "members"@) by {
        assert("lists"@.len() != "members"@.len());
    }
    let e = i + o12 + 1;
    assert(board_members_step(s, i + o6 + 1, i + o8, Some(b.seed), Some(b.url), Some(b.members),
        Some(b.lists), None, None) == Some((b, e)));
    assert(parse_board_members(s, i + o6 + 1, Some(b.seed), Some(b.url), Some(b.members), None,
        None, None) == Some((b, e)));
    assert(board_members_step(s, i + o4 + 1, i + o6, Some(b.seed), Some(b.url), Some(b.members),
        None, None, None) == Some((b, e)));
    assert(parse_board_members(s, i + o4 + 1, Some(b.seed), Some(b.url), None, None, None, None)
        == Some((b, e)));
}

/// Walks the first two members of the inner board object: the seed and the
/// url, in canonical order.
#[verifier::rlimit(100)]
proof fn lemma_board_members_walk_a(
    s: Seq<char>,
    i: int,
    b: BoardView,
    o2: int,
    o3: int,
    o4: int,
    o5: int,
    o6: int,
    o7: int,
    o8: int,
    o9: int,
    o10: int,
    o11: int,
    o12: int,
)
    requires
        0 <= i,
        i + o12 + 1 <= s.len(),
        17 < o2 && o2 + 7 == o3 && o3 < o4 && o4 + 11 == o5 && o5 < o6 && o6 + 9 == o7 && o7 < o8
            && o8 + 9 == o9 && o9 < o10 && o10 + 12 == o11 && o11 < o12,
        spec_parse_string(s, i + 10) == Some(("seed"@, i + 16)),
        spec_parse_u32(s, i + 17) == Some((b.seed, i + o2)),
        spec_parse_string(s, i + o2 + 1) == Some(("url"@, i + o3 - 1)),
        spec_parse_string(s, i + o3) == Some((b.url, i + o4)),
        s[i + 16] == ':' && s[i + o3 - 1] == ':',
        s[i + o2] == ',' && s[i + o4] == ',',
        s[i + 10] == '"' && s[i + o2 + 1] == '"',
        s[i + o3] == '"',
        is_digit(s[i + 17]),
        parse_board_members(s, i + o4 + 1, Some(b.seed), Some(b.url), None, None, None, None)
            == Some((b, i + o12 + 1)),
    ensures
        parse_board_members(s, i + 10, None, None, None, None, None, None) == Some(
            (b, i + o12 + 1),
        ),
{
    assert(skip_ws(s, i + 10) == i + 10);
    assert(skip_ws(s, i + 16) == i + 16);
    assert(skip_ws(s, i + 17) == i + 17);
    assert(skip_ws(s, i + o2) == i + o2);
    assert(skip_ws(s, i + o2 + 1) == i + o2 + 1);
    assert(skip_ws(s, i + o3 - 1) == i + o3 - 1);
    assert(skip_ws(s, i + o3) == i + o3);
    assert(skip_ws(s, i + o4) == i + o4);
    reveal_strlit("seed");
    reveal_strlit("url");
    assert("url"@ != "seed"@) by {
        assert("url"@.len() != "seed"@.len());
    }
    let e = i + o12 + 1;
    assert(board_members_step(s, i + o2 + 1, i + o4, Some(b.seed), Some(b.url), None, None, None,
        None) == Some((b, e)));
    assert(parse_board_members(s, i + o2 + 1, Some(b.seed), None, None, None, None, None) == Some(
        (b, e),
    ));
    assert(board_members_step(s, i + 10, i + o2, Some(b.seed), None, None, None, None, None)
        == Some((b, e)));
    assert(parse_board_members(s, i + 10, None, None, None, None, None, None) == Some((b, e)));
}

/// The salient characters of the canonical text of a board at `i`.
#[verifier::rlimit(100)]
proof fn lemma_board_text_chars(
    s: Seq<char>,
    i: int,
    b: BoardView,
    o2: int,
    o3: int,
    o4: int,
    o5: int,
    o6: int,
    o7: int,
    o8: int,
    o9: int,
    o10: int,
    o11: int,
    o12: int,
)
    requires
        board_strings_scalar(b),
        0 <= i,
        i + json_of_board(b).len() <= s.len(),
        s.subrange(i, i + json_of_board(b).len()) == json_of_board(b),
        o2 == 17 + dec_digits(b.seed as nat).len(),
        o3 == o2 + 7,
        o4 == o3 + json_string(b.url).len(),
        o5 == o4 + 11,
        o6 == o5 + json_of_members(b.members).len(),
        o7 == o6 + 9,
        o8 == o7 + json_of_lists(b.lists).len(),
        o9 == o8 + 9,
        o10 == o9 + json_of_cards(b.cards).len(),
        o11 == o10 + 12,
        o12 == o11 + json_string(b.currency).len(),
    ensures
        json_of_board(b).len() == o12 + 2,
        s[i] == '{' && s[i + 1] == '"' && s[i + 8] == ':' && s[i + 9] == '{',
        s[i + 10] == '"' && s[i + 16] == ':',
        17 < o2 && o3 < o4 && o5 < o6 && o7 < o8 && o9 < o10 && o11 < o12,
        s[i + o2] == ',' && s[i + o4] == ',' && s[i + o6] == ',' && s[i + o8] == ',' && s[i + o10]
            == ',',
        s[i + o3 - 1] == ':' && s[i + o5 - 1] == ':' && s[i + o7 - 1] == ':' && s[i + o9 - 1]
            == ':' && s[i + o11 - 1] == ':',
        s[i + o2 + 1] == '"' && s[i + o4 + 1] == '"' && s[i + o6 + 1] == '"' && s[i + o8 + 1]
            == '"' && s[i + o10 + 1] == '"',
        s[i + o3] == '"' && s[i + o11] == '"',
        s[i + o5] == '[' && s[i + o7] == '[' && s[i + o9] == '[',
        is_digit(s[i + 17]),
        s[i + o12] == '}' && s[i + o12 + 1] == '}',
{
    let w = json_of_board(b);
    let l1 = "{\"Board\":{\"seed\":"@;
    let d = dec_digits(b.seed as nat);
    let l2 = ",\"url\":"@;
    let q1 = json_string(b.url);
    let l3 = ",\"members\":"@;
    let m = json_of_members(b.members);
    let l4 = ",\"lists\":"@;
    let ls = json_of_lists(b.lists);
    let l5 = ",\"cards\":"@;
    let cs = json_of_cards(b.cards);
    let l6 = ",\"currency\":"@;
    let q2 = json_string(b.currency);
    let l7 = "}}"@;
    reveal_strlit("{\"Board\":{\"seed\":");
    reveal_strlit(",\"url\":");
    reveal_strlit(",\"members\":");
    reveal_strlit(",\"lists\":");
    reveal_strlit(",\"cards\":");
    reveal_strlit(",\"currency\":");
    reveal_strlit("}}");
    lemma_dec_digits(b.seed as nat);
    assert(w.len() == o12 + 2);
    assert(w.subrange(0, 17) =~= l1);
    assert(w.subrange(17, o2) =~= d);
    assert(w.subrange(o2, o3) =~= l2);
    assert(w.subrange(o3, o4) =~= q1);
    assert(w.subrange(o4, o5) =~= l3);
    assert(w.subrange(o5, o6) =~= m);
    assert(w.subrange(o6, o7) =~= l4);
    assert(w.subrange(o7, o8) =~= ls);
    assert(w.subrange(o8, o9) =~= l5);
    assert(w.subrange(o9, o10) =~= cs);
    assert(w.subrange(o10, o11) =~= l6);
    assert(w.subrange(o11, o12) =~= q2);
    assert(w.subrange(o12, o12 + 2) =~= l7);
    lemma_subrange_of_subrange(s, i, i + o12 + 2, i, i + 17);
    lemma_subrange_of_subrange(s, i, i + o12 + 2, i + 17, i + o2);
    lemma_subrange_of_subrange(s, i, i + o12 + 2, i + o2, i + o3);
    lemma_subrange_of_subrange(s, i, i + o12 + 2, i + o3, i + o4);
    lemma_subrange_of_subrange(s, i, i + o12 + 2, i + o4, i + o5);
    lemma_subrange_of_subrange(s, i, i + o12 + 2, i + o5, i + o6);
    lemma_subrange_of_subrange(s, i, i + o12 + 2, i + o6, i + o7);
    lemma_subrange_of_subrange(s, i, i + o12 + 2, i + o7, i + o8);
    lemma_subrange_of_subrange(s, i, i + o12 + 2, i + o8, i + o9);
    lemma_subrange_of_subrange(s, i, i + o12 + 2, i + o9, i + o10);
    lemma_subrange_of_subrange(s, i, i + o12 + 2, i + o10, i + o11);
    lemma_subrange_of_subrange(s, i, i + o12 + 2, i + o11, i + o12);
    lemma_subrange_of_subrange(s, i, i + o12 + 2, i + o12, i + o12 + 2);
    assert(s[i] == s.subrange(i, i + 17)[0]);
    assert(s[i + 1] == s.subrange(i, i + 17)[1]);
    assert(s[i + 8] == s.subrange(i, i + 17)[8]);
    assert(s[i + 9] == s.subrange(i, i + 17)[9]);
    assert(s[i + 10] == s.subrange(i, i + 17)[10]);
    assert(s[i + 16] == s.subrange(i, i + 17)[16]);
    assert(s[i + 17] == s.subrange(i + 17, i + o2)[0]);
    assert(s[i + o2] == s.subrange(i + o2, i + o3)[0]);
    assert(s[i + o2 + 1] == s.subrange(i + o2, i + o3)[1]);
    assert(s[i + o3 - 1] == s.subrange(i + o2, i + o3)[o3 - o2 - 1]);
    assert(s[i + o3] == s.subrange(i + o3, i + o4)[0]);
    assert(s[i + o4] == s.subrange(i + o4, i + o5)[0]);
    assert(s[i + o4 + 1] == s.subrange(i + o4, i + o5)[1]);
    assert(s[i + o5 - 1] == s.subrange(i + o4, i + o5)[o5 - o4 - 1]);
    assert(s[i + o5] == s.subrange(i + o5, i + o6)[0]);
    assert(s[i + o6] == s.subrange(i + o6, i + o7)[0]);
    assert(s[i + o6 + 1] == s.subrange(i + o6, i + o7)[1]);
    assert(s[i + o7 - 1] == s.subrange(i + o6, i + o7)[o7 - o6 - 1]);
    assert(s[i + o7] == s.subrange(i + o7, i + o8)[0]);
    assert(s[i + o8] == s.subrange(i + o8, i + o9)[0]);
    assert(s[i + o8 + 1] == s.subrange(i + o8, i + o9)[1]);
    assert(s[i + o9 - 1] == s.subrange(i + o8, i + o9)[o9 - o8 - 1]);
    assert(s[i + o9] == s.subrange(i + o9, i + o10)[0]);
    assert(s[i + o10] == s.subrange(i + o10, i + o11)[0]);
    assert(s[i + o10 + 1] == s.subrange(i + o10, i + o11)[1]);
    assert(s[i + o11 - 1] == s.subrange(i + o10, i + o11)[o11 - o10 - 1]);
    assert(s[i + o11] == s.subrange(i + o11, i + o12)[0]);
    assert(s[i + o12] == s.subrange(i + o12, i + o12 + 2)[0]);
    assert(s[i + o12 + 1] == s.subrange(i + o12, i + o12 + 2)[1]);
    assert(is_digit(s[i + 17])) by {
        assert(s[i + 17] == d[0]);
    }
}

/// The member keys of the canonical text of a board at `i`.
#[verifier::rlimit(100)]
/// The member keys and member values of the canonical text of a board at
/// `i`, as parse results.
#[verifier::rlimit(100)]
proof fn lemma_board_text_keys(
    s: Seq<char>,
    i: int,
    b: BoardView,
    o2: int,
    o3: int,
    o4: int,
    o5: int,
    o6: int,
    o7: int,
    o8: int,
    o9: int,
    o10: int,
    o11: int,
    o12: int,
)
    requires
        board_strings_scalar(b),
        0 <= i,
        i + json_of_board(b).len() <= s.len(),
        s.subrange(i, i + json_of_board(b).len()) == json_of_board(b),
        o2 == 17 + dec_digits(b.seed as nat).len(),
        o3 == o2 + 7,
        o4 == o3 + json_string(b.url).len(),
        o5 == o4 + 11,
        o6 == o5 + json_of_members(b.members).len(),
        o7 == o6 + 9,
        o8 == o7 + json_of_lists(b.lists).len(),
        o9 == o8 + 9,
        o10 == o9 + json_of_cards(b.cards).len(),
        o11 == o10 + 12,
        o12 == o11 + json_string(b.currency).len(),
    ensures
        spec_parse_string(s, i + 1) == Some(("Board"@, i + 8)),
        spec_parse_string(s, i + 10) == Some(("seed"@, i + 16)),
        spec_parse_string(s, i + o2 + 1) == Some(("url"@, i + o3 - 1)),
        spec_parse_string(s, i + o4 + 1) == Some(("members"@, i + o5 - 1)),
        spec_parse_string(s, i + o6 + 1) == Some(("lists"@, i + o7 - 1)),
        spec_parse_string(s, i + o8 + 1) == Some(("cards"@, i + o9 - 1)),
        spec_parse_string(s, i + o10 + 1) == Some(("currency"@, i + o11 - 1)),
{
    let w = json_of_board(b);
    let l1 = "{\"Board\":{\"seed\":"@;
    let d = dec_digits(b.seed as nat);
    let l2 = ",\"url\":"@;
    let q1 = json_string(b.url);
    let l3 = ",\"members\":"@;
    let m = json_of_members(b.members);
    let l4 = ",\"lists\":"@;
    let ls = json_of_lists(b.lists);
    let l5 = ",\"cards\":"@;
    let cs = json_of_cards(b.cards);
    let l6 = ",\"currency\":"@;
    let q2 = json_string(b.currency);
    let l7 = "}}"@;
    reveal_strlit("{\"Board\":{\"seed\":");
    reveal_strlit(",\"url\":");
    reveal_strlit(",\"members\":");
    reveal_strlit(",\"lists\":");
    reveal_strlit(",\"cards\":");
    reveal_strlit(",\"currency\":");
    reveal_strlit("}}");
    lemma_dec_digits(b.seed as nat);
    assert(w.len() == o12 + 2);
    assert(w.subrange(0, 17) =~= l1);
    assert(w.subrange(17, o2) =~= d);
    assert(w.subrange(o2, o3) =~= l2);
    assert(w.subrange(o3, o4) =~= q1);
    assert(w.subrange(o4, o5) =~= l3);
    assert(w.subrange(o5, o6) =~= m);
    assert(w.subrange(o6, o7) =~= l4);
    assert(w.subrange(o7, o8) =~= ls);
    assert(w.subrange(o8, o9) =~= l5);
    assert(w.subrange(o9, o10) =~= cs);
    assert(w.subrange(o10, o11) =~= l6);
    assert(w.subrange(o11, o12) =~= q2);
    assert(w.subrange(o12, o12 + 2) =~= l7);
    lemma_subrange_of_subrange(s, i, i + o12 + 2, i, i + 17);
    lemma_subrange_of_subrange(s, i, i + o12 + 2, i + 17, i + o2);
    lemma_subrange_of_subrange(s, i, i + o12 + 2, i + o2, i + o3);
    lemma_subrange_of_subrange(s, i, i + o12 + 2, i + o3, i + o4);
    lemma_subrange_of_subrange(s, i, i + o12 + 2, i + o4, i + o5);
    lemma_subrange_of_subrange(s, i, i + o12 + 2, i + o5, i + o6);
    lemma_subrange_of_subrange(s, i, i + o12 + 2, i + o6, i + o7);
    lemma_subrange_of_subrange(s, i, i + o12 + 2, i + o7, i + o8);
    lemma_subrange_of_subrange(s, i, i + o12 + 2, i + o8, i + o9);
    lemma_subrange_of_subrange(s, i, i + o12 + 2, i + o9, i + o10);
    lemma_subrange_of_subrange(s, i, i + o12 + 2, i + o10, i + o11);
    lemma_subrange_of_subrange(s, i, i + o12 + 2, i + o11, i + o12);
    lemma_subrange_of_subrange(s, i, i + o12 + 2, i + o12, i + o12 + 2);
    reveal_strlit("Board");
    reveal_strlit("seed");
    reveal_strlit("url");
    reveal_strlit("members");
    reveal_strlit("lists");
    reveal_strlit("cards");
    reveal_strlit("currency");
    lemma_esc_plain("Board"@);
    lemma_esc_plain("seed"@);
    lemma_esc_plain("url"@);
    lemma_esc_plain("members"@);
    lemma_esc_plain("lists"@);
    lemma_esc_plain("cards"@);
    lemma_esc_plain("currency"@);
    assert forall|k: int| 0 <= k < 7 implies #[trigger] s.subrange(i + 1, i + 8)[k]
        == json_string("Board"@)[k] by {
        assert(s.subrange(i + 1, i + 8)[k] == s[i + 1 + k]);
        assert(s.subrange(i, i + 17)[1 + k] == s[i + 1 + k]);
    }
    assert(s.subrange(i + 1, i + 8) =~= json_string("Board"@));
    assert forall|k: int| 0 <= k < 6 implies #[trigger] s.subrange(i + 10, i + 16)[k]
        == json_string("seed"@)[k] by {
        assert(s.subrange(i + 10, i + 16)[k] == s[i + 10 + k]);
        assert(s.subrange(i, i + 17)[10 + k] == s[i + 10 + k]);
    }
    assert(s.subrange(i + 10, i + 16) =~= json_string("seed"@));
    assert forall|k: int| 0 <= k < 5 implies #[trigger] s.subrange(i + o2 + 1, i + o2 + 6)[k]
        == json_string("url"@)[k] by {
        assert(s.subrange(i + o2 + 1, i + o2 + 6)[k] == s[i + o2 + 1 + k]);
        assert(s.subrange(i + o2, i + o3)[1 + k] == s[i + o2 + 1 + k]);
    }
    assert(s.subrange(i + o2 + 1, i + o2 + 6) =~= json_string("url"@));
    assert forall|k: int| 0 <= k < 9 implies #[trigger] s.subrange(i + o4 + 1, i + o4 + 10)[k]
        == json_string("members"@)[k] by {
        assert(s.subrange(i + o4 + 1, i + o4 + 10)[k] == s[i + o4 + 1 + k]);
        assert(s.subrange(i + o4, i + o5)[1 + k] == s[i + o4 + 1 + k]);
    }
    assert(s.subrange(i + o4 + 1, i + o4 + 10) =~= json_string("members"@));
    assert forall|k: int| 0 <= k < 7 implies #[trigger] s.subrange(i + o6 + 1, i + o6 + 8)[k]
        == json_string("lists"@)[k] by {
        assert(s.subrange(i + o6 + 1, i + o6 + 8)[k] == s[i + o6 + 1 + k]);
        assert(s.subrange(i + o6, i + o7)[1 + k] == s[i + o6 + 1 + k]);
    }
    assert(s.subrange(i + o6 + 1, i + o6 + 8) =~= json_string("lists"@));
    assert forall|k: int| 0 <= k < 7 implies #[trigger] s.subrange(i + o8 + 1, i + o8 + 8)[k]
        == json_string("cards"@)[k] by {
        assert(s.subrange(i + o8 + 1, i + o8 + 8)[k] == s[i + o8 + 1 + k]);
        assert(s.subrange(i + o8, i + o9)[1 + k] == s[i + o8 + 1 + k]);
    }
    assert(s.subrange(i + o8 + 1, i + o8 + 8) =~= json_string("cards"@));
    assert forall|k: int| 0 <= k < 10 implies #[trigger] s.subrange(i + o10 + 1, i + o10 + 11)[k]
        == json_string("currency"@)[k] by {
        assert(s.subrange(i + o10 + 1, i + o10 + 11)[k] == s[i + o10 + 1 + k]);
        assert(s.subrange(i + o10, i + o11)[1 + k] == s[i + o10 + 1 + k]);
    }
    assert(s.subrange(i + o10 + 1, i + o10 + 11) =~= json_string("currency"@));
    assert(scalar_values("Board"@));
    assert(scalar_values("seed"@));
    assert(scalar_values("url"@));
    assert(scalar_values("members"@));
    assert(scalar_values("lists"@));
    assert(scalar_values("cards"@));
    assert(scalar_values("currency"@));
    lemma_parse_string_of(s, i + 1, "Board"@);
    lemma_parse_string_of(s, i + 10, "seed"@);
    lemma_parse_string_of(s, i + o2 + 1, "url"@);
    lemma_parse_string_of(s, i + o4 + 1, "members"@);
    lemma_parse_string_of(s, i + o6 + 1, "lists"@);
    lemma_parse_string_of(s, i + o8 + 1, "cards"@);
    lemma_parse_string_of(s, i + o10 + 1, "currency"@);
}

/// The member values of the canonical text of a board at `i`.
#[verifier::rlimit(100)]
/// The member keys and member values of the canonical text of a board at
/// `i`, as parse results.
#[verifier::rlimit(100)]
proof fn lemma_board_text_values(
    s: Seq<char>,
    i: int,
    b: BoardView,
    o2: int,
    o3: int,
    o4: int,
    o5: int,
    o6: int,
    o7: int,
    o8: int,
    o9: int,
    o10: int,
    o11: int,
    o12: int,
)
    requires
        board_strings_scalar(b),
        0 <= i,
        i + json_of_board(b).len() <= s.len(),
        s.subrange(i, i + json_of_board(b).len()) == json_of_board(b),
        o2 == 17 + dec_digits(b.seed as nat).len(),
        o3 == o2 + 7,
        o4 == o3 + json_string(b.url).len(),
        o5 == o4 + 11,
        o6 == o5 + json_of_members(b.members).len(),
        o7 == o6 + 9,
        o8 == o7 + json_of_lists(b.lists).len(),
        o9 == o8 + 9,
        o10 == o9 + json_of_cards(b.cards).len(),
        o11 == o10 + 12,
        o12 == o11 + json_string(b.currency).len(),
    ensures
        spec_parse_u32(s, i + 17) == Some((b.seed, i + o2)),
        spec_parse_string(s, i + o3) == Some((b.url, i + o4)),
        parse_members(s, i + o5) == Some((b.members, i + o6)),
        parse_lists(s, i + o7) == Some((b.lists, i + o8)),
        parse_cards(s, i + o9) == Some((b.cards, i + o10)),
        spec_parse_string(s, i + o11) == Some((b.currency, i + o12)),
{
    let w = json_of_board(b);
    let l1 = "{\"Board\":{\"seed\":"@;
    let d = dec_digits(b.seed as nat);
    let l2 = ",\"url\":"@;
    let q1 = json_string(b.url);
    let l3 = ",\"members\":"@;
    let m = json_of_members(b.members);
    let l4 = ",\"lists\":"@;
    let ls = json_of_lists(b.lists);
    let l5 = ",\"cards\":"@;
    let cs = json_of_cards(b.cards);
    let l6 = ",\"currency\":"@;
    let q2 = json_string(b.currency);
    let l7 = "}}"@;
    reveal_strlit("{\"Board\":{\"seed\":");
    reveal_strlit(",\"url\":");
    reveal_strlit(",\"members\":");
    reveal_strlit(",\"lists\":");
    reveal_strlit(",\"cards\":");
    reveal_strlit(",\"currency\":");
    reveal_strlit("}}");
    lemma_dec_digits(b.seed as nat);
    assert(w.len() == o12 + 2);
    assert(w.subrange(0, 17) =~= l1);
    assert(w.subrange(17, o2) =~= d);
    assert(w.subrange(o2, o3) =~= l2);
    assert(w.subrange(o3, o4) =~= q1);
    assert(w.subrange(o4, o5) =~= l3);
    assert(w.subrange(o5, o6) =~= m);
    assert(w.subrange(o6, o7) =~= l4);
    assert(w.subrange(o7, o8) =~= ls);
    assert(w.subrange(o8, o9) =~= l5);
    assert(w.subrange(o9, o10) =~= cs);
    assert(w.subrange(o10, o11) =~= l6);
    assert(w.subrange(o11, o12) =~= q2);
    assert(w.subrange(o12, o12 + 2) =~= l7);
    lemma_subrange_of_subrange(s, i, i + o12 + 2, i, i + 17);
    lemma_subrange_of_subrange(s, i, i + o12 + 2, i + 17, i + o2);
    lemma_subrange_of_subrange(s, i, i + o12 + 2, i + o2, i + o3);
    lemma_subrange_of_subrange(s, i, i + o12 + 2, i + o3, i + o4);
    lemma_subrange_of_subrange(s, i, i + o12 + 2, i + o4, i + o5);
    lemma_subrange_of_subrange(s, i, i + o12 + 2, i + o5, i + o6);
    lemma_subrange_of_subrange(s, i, i + o12 + 2, i + o6, i + o7);
    lemma_subrange_of_subrange(s, i, i + o12 + 2, i + o7, i + o8);
    lemma_subrange_of_subrange(s, i, i + o12 + 2, i + o8, i + o9);
    lemma_subrange_of_subrange(s, i, i + o12 + 2, i + o9, i + o10);
    lemma_subrange_of_subrange(s, i, i + o12 + 2, i + o10, i + o11);
    lemma_subrange_of_subrange(s, i, i + o12 + 2, i + o11, i + o12);
    lemma_subrange_of_subrange(s, i, i + o12 + 2, i + o12, i + o12 + 2);
    reveal_strlit("url");
    reveal_strlit("currency");
    lemma_parse_string_of(s, i + o3, b.url);
    lemma_parse_string_of(s, i + o11, b.currency);
    assert(s[i + 17] == s.subrange(i + 17, i + o2)[0]);
    assert(s[i + o2] == s.subrange(i + o2, i + o3)[0]);
    assert(is_digit(s[i + 17])) by {
        assert(s[i + 17] == d[0]);
    }
    assert(!is_digit(s[i + o2]));
    lemma_parse_u32_of_encoding(s, i + 17, b.seed);
    lemma_parse_members_of(s, i + o5, b.members);
    lemma_parse_lists_of(s, i + o7, b.lists);
    lemma_parse_cards_of(s, i + o9, b.cards);
}

/// At the canonical JSON text of a board, parsing yields exactly that
/// board.
#[verifier::rlimit(100)]
pub proof fn lemma_parse_board_of(s: Seq<char>, i: int, b: BoardView)
    requires
        board_strings_scalar(b),
        0 <= i,
        i + json_of_board(b).len() <= s.len(),
        s.subrange(i, i + json_of_board(b).len()) == json_of_board(b),
    ensures
        parse_board(s, i) == Some((b, i + json_of_board(b).len())),
{
    let o2 = 17 + dec_digits(b.seed as nat).len() as int;
    let o3 = o2 + 7;
    let o4 = o3 + json_string(b.url).len();
    let o5 = o4 + 11;
    let o6 = o5 + json_of_members(b.members).len();
    let o7 = o6 + 9;
    let o8 = o7 + json_of_lists(b.lists).len();
    let o9 = o8 + 9;
    let o10 = o9 + json_of_cards(b.cards).len();
    let o11 = o10 + 12;
    let o12 = o11 + json_string(b.currency).len();
    lemma_board_text_chars(s, i, b, o2, o3, o4, o5, o6, o7, o8, o9, o10, o11, o12);
    lemma_board_text_keys(s, i, b, o2, o3, o4, o5, o6, o7, o8, o9, o10, o11, o12);
    lemma_board_text_values(s, i, b, o2, o3, o4, o5, o6, o7, o8, o9, o10, o11, o12);
    lemma_board_members_walk_c(s, i, b, o2, o3, o4, o5, o6, o7, o8, o9, o10, o11, o12);
    lemma_board_members_walk_b(s, i, b, o2, o3, o4, o5, o6, o7, o8, o9, o10, o11, o12);
    lemma_board_members_walk_a(s, i, b, o2, o3, o4, o5, o6, o7, o8, o9, o10, o11, o12);
    assert(skip_ws(s, i) == i);
    assert(skip_ws(s, i + 1) == i + 1);
    assert(skip_ws(s, i + 8) == i + 8);
    assert(skip_ws(s, i + 9) == i + 9);
    assert(skip_ws(s, i + o12 + 1) == i + o12 + 1);
    assert(parse_board(s, i) == Some((b, i + o12 + 2)));
}

/// Round trip: decoding the canonical JSON text of any board yields that
/// board back.
pub proof fn lemma_board_round_trip(b: BoardView)
    requires
        board_strings_scalar(b),
    ensures
        spec_decode_board(json_of_board(b)) == Some(b),
{
    let s = json_of_board(b);
    assert(s.subrange(0, s.len() as int) =~= s);
    lemma_parse_board_of(s, 0, b);
    assert(skip_ws(s, s.len() as int) == s.len());
}

} // verus!
