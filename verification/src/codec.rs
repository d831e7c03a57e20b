//! Executable board codec: encoding a board to its canonical JSON text and
//! decoding a standard JSON form of the board document back, each exact
//! against the spec-level codec.

use vstd::prelude::*;
use vstd::string::StrSliceExecFns;
use crate::board::{Board, Card, List, ListView, lists_view};
use crate::chars::{chars_to_string, str_to_chars};
use crate::jstring::{parse_string_chars, push_json_string, json_string};
use crate::json::{
    is_json_ws, skip_ws, lemma_skip_ws_of, parse_list_members, parse_list_obj, parse_card_members,
    parse_card_obj, parse_members, parse_members_items, parse_lists, parse_lists_items,
    parse_cards, parse_cards_items, parse_board_members, board_members_step, parse_board,
    spec_decode_board, json_of_list, json_of_card, members_items, lists_items, cards_items,
    json_of_members, json_of_lists, json_of_cards, json_of_board,
};
use crate::num::{parse_u32_chars, parse_u64_chars, push_u64_digits};

verus! {

pub open spec fn str_opt_view(o: Option<String>) -> Option<Seq<char>> {
    match o {
        Some(s) => Some(s@),
        None => None,
    }
}

pub open spec fn members_opt_view(o: Option<Vec<String>>) -> Option<Seq<Seq<char>>> {
    match o {
        Some(v) => Some(v.deep_view()),
        None => None,
    }
}

pub open spec fn lists_opt_view(o: Option<Vec<List>>) -> Option<Seq<ListView>> {
    match o {
        Some(v) => Some(lists_view(v@)),
        None => None,
    }
}

pub open spec fn cards_opt_view(o: Option<Vec<Card>>) -> Option<Seq<Card>> {
    match o {
        Some(v) => Some(v@),
        None => None,
    }
}

/// Advances past JSON whitespace.
fn skip_ws_chars(v: &Vec<char>, i: usize) -> (r: usize)
    requires
        i <= v@.len(),
    ensures
        r == skip_ws(v@, i as int),
        i <= r <= v@.len(),
{
    let n = v.len();
    let mut k: usize = i;
    while k < n && (v[k] == ' ' || v[k] == '\t' || v[k] == '\n' || v[k] == '\r')
        invariant
            n == v@.len(),
            i <= k <= n,
            forall|t: int| i <= t < k ==> is_json_ws(#[trigger] v@[t]),
        decreases n - k,
    {
        k = k + 1;
    }
    proof {
        lemma_skip_ws_of(v@, i as int, k as int);
    }
    k
}

/// Whether the characters equal the given text.
fn chars_eq_lit(x: &Vec<char>, lit: &str) -> (r: bool)
    ensures
        r == (x@ == lit@),
{
    let n = lit.unicode_len();
    if x.len() != n {
        proof {
            assert(x@ != lit@);
        }
        return false;
    }
    let mut k: usize = 0;
    while k < n
        invariant
            n == lit@.len(),
            n == x@.len(),
            k <= n,
            forall|t: int| 0 <= t < k ==> x@[t] == lit@[t],
        decreases n - k,
    {
        if x[k] != lit.get_char(k) {
            proof {
                assert(x@[k as int] != lit@[k as int]);
            }
            return false;
        }
        k = k + 1;
    }
    proof {
        assert(x@ =~= lit@);
    }
    true
}

/// Parses the members of one list object, given the fields already seen.
fn parse_list_members_chars(
    v: &Vec<char>,
    i: usize,
    lid: Option<u32>,
    nm: Option<String>,
    pct: Option<u32>,
) -> (r: Option<(List, usize)>)
    requires
        i <= v@.len(),
    ensures
        r matches Some(p) ==> parse_list_members(v@, i as int, lid, str_opt_view(nm), pct)
            == Some((p.0@, p.1 as int)) && i < p.1 <= v@.len(),
        r is None ==> parse_list_members(v@, i as int, lid, str_opt_view(nm), pct) is None,
    decreases v@.len() - i,
{
    let i0 = skip_ws_chars(v, i);
    let (key, j0) = match parse_string_chars(v, i0) {
        Some(p) => p,
        None => {
            return None;
        },
    };
    let j1 = skip_ws_chars(v, j0);
    if !(j1 < v.len() && v[j1] == ':') {
        return None;
    }
    let j2 = skip_ws_chars(v, j1 + 1);
    if chars_eq_lit(&key, "list_id") {
        if lid.is_some() {
            return None;
        }
        let (x, j3) = match parse_u32_chars(v, j2) {
            Some(p) => p,
            None => {
                return None;
            },
        };
        let j4 = skip_ws_chars(v, j3);
        if j4 < v.len() && v[j4] == ',' && i < j4 {
            parse_list_members_chars(v, j4 + 1, Some(x), nm, pct)
        } else if j4 < v.len() && v[j4] == '}' && nm.is_some() && pct.is_some() {
            Some((
                List {
                    list_id: x,
                    name: nm.unwrap(),
                    bounty_payout_percentage: pct.unwrap(),
                },
                j4 + 1,
            ))
        } else {
            None
        }
    } else if chars_eq_lit(&key, "name") {
        if nm.is_some() {
            return None;
        }
        let (x, j3) = match parse_string_chars(v, j2) {
            Some(p) => p,
            None => {
                return None;
            },
        };
        let xs = chars_to_string(&x);
        let j4 = skip_ws_chars(v, j3);
        if j4 < v.len() && v[j4] == ',' && i < j4 {
            parse_list_members_chars(v, j4 + 1, lid, Some(xs), pct)
        } else if j4 < v.len() && v[j4] == '}' && lid.is_some() && pct.is_some() {
            Some((
                List {
                    list_id: lid.unwrap(),
                    name: xs,
                    bounty_payout_percentage: pct.unwrap(),
                },
                j4 + 1,
            ))
        } else {
            None
        }
    } else if chars_eq_lit(&key, "bounty_payout_percentage") {
        if pct.is_some() {
            return None;
        }
        let (x, j3) = match parse_u32_chars(v, j2) {
            Some(p) => p,
            None => {
                return None;
            },
        };
        let j4 = skip_ws_chars(v, j3);
        if j4 < v.len() && v[j4] == ',' && i < j4 {
            parse_list_members_chars(v, j4 + 1, lid, nm, Some(x))
        } else if j4 < v.len() && v[j4] == '}' && lid.is_some() && nm.is_some() {
            Some((
                List {
                    list_id: lid.unwrap(),
                    name: nm.unwrap(),
                    bounty_payout_percentage: x,
                },
                j4 + 1,
            ))
        } else {
            None
        }
    } else {
        None
    }
}

/// Parses one list object at `i`.
fn parse_list_obj_chars(v: &Vec<char>, i: usize) -> (r: Option<(List, usize)>)
    requires
        i <= v@.len(),
    ensures
        r matches Some(p) ==> parse_list_obj(v@, i as int) == Some((p.0@, p.1 as int)) && i < p.1
            <= v@.len(),
        r is None ==> parse_list_obj(v@, i as int) is None,
{
    if i < v.len() && v[i] == '{' {
        parse_list_members_chars(v, i + 1, None, None, None)
    } else {
        None
    }
}

/// Parses the members of one card object, given the fields already seen.
fn parse_card_members_chars(
    v: &Vec<char>,
    i: usize,
    cid: Option<u32>,
    lid: Option<u32>,
    bty: Option<u64>,
) -> (r: Option<(Card, usize)>)
    requires
        i <= v@.len(),
    ensures
        r matches Some(p) ==> parse_card_members(v@, i as int, cid, lid, bty) == Some(
            (p.0, p.1 as int),
        ) && i < p.1 <= v@.len(),
        r is None ==> parse_card_members(v@, i as int, cid, lid, bty) is None,
    decreases v@.len() - i,
{
    let i0 = skip_ws_chars(v, i);
    let (key, j0) = match parse_string_chars(v, i0) {
        Some(p) => p,
        None => {
            return None;
        },
    };
    let j1 = skip_ws_chars(v, j0);
    if !(j1 < v.len() && v[j1] == ':') {
        return None;
    }
    let j2 = skip_ws_chars(v, j1 + 1);
    if chars_eq_lit(&key, "card_id") {
        if cid.is_some() {
            return None;
        }
        let (x, j3) = match parse_u32_chars(v, j2) {
            Some(p) => p,
            None => {
                return None;
            },
        };
        let j4 = skip_ws_chars(v, j3);
        if j4 < v.len() && v[j4] == ',' && i < j4 {
            parse_card_members_chars(v, j4 + 1, Some(x), lid, bty)
        } else if j4 < v.len() && v[j4] == '}' && lid.is_some() && bty.is_some() {
            Some((Card { card_id: x, list_id: lid.unwrap(), bounty: bty.unwrap() }, j4 + 1))
        } else {
            None
        }
    } else if chars_eq_lit(&key, "list_id") {
        if lid.is_some() {
            return None;
        }
        let (x, j3) = match parse_u32_chars(v, j2) {
            Some(p) => p,
            None => {
                return None;
            },
        };
        let j4 = skip_ws_chars(v, j3);
        if j4 < v.len() && v[j4] == ',' && i < j4 {
            parse_card_members_chars(v, j4 + 1, cid, Some(x), bty)
        } else if j4 < v.len() && v[j4] == '}' && cid.is_some() && bty.is_some() {
            Some((Card { card_id: cid.unwrap(), list_id: x, bounty: bty.unwrap() }, j4 + 1))
        } else {
            None
        }
    } else if chars_eq_lit(&key, "bounty") {
        if bty.is_some() {
            return None;
        }
        let (x, j3) = match parse_u64_chars(v, j2) {
            Some(p) => p,
            None => {
                return None;
            },
        };
        let j4 = skip_ws_chars(v, j3);
        if j4 < v.len() && v[j4] == ',' && i < j4 {
            parse_card_members_chars(v, j4 + 1, cid, lid, Some(x))
        } else if j4 < v.len() && v[j4] == '}' && cid.is_some() && lid.is_some() {
            Some((Card { card_id: cid.unwrap(), list_id: lid.unwrap(), bounty: x }, j4 + 1))
        } else {
            None
        }
    } else {
        None
    }
}

/// Parses one card object at `i`.
fn parse_card_obj_chars(v: &Vec<char>, i: usize) -> (r: Option<(Card, usize)>)
    requires
        i <= v@.len(),
    ensures
        r matches Some(p) ==> parse_card_obj(v@, i as int) == Some((p.0, p.1 as int)) && i < p.1
            <= v@.len(),
        r is None ==> parse_card_obj(v@, i as int) is None,
{
    if i < v.len() && v[i] == '{' {
        parse_card_members_chars(v, i + 1, None, None, None)
    } else {
        None
    }
}

/// Parses the items of the members array, through the closing bracket.
fn parse_members_items_chars(v: &Vec<char>, i: usize) -> (r: Option<(Vec<String>, usize)>)
    requires
        i <= v@.len(),
    ensures
        r matches Some(p) ==> parse_members_items(v@, i as int) == Some(
            (p.0.deep_view(), p.1 as int),
        ) && i < p.1 <= v@.len(),
        r is None ==> parse_members_items(v@, i as int) is None,
    decreases v@.len() - i,
{
    let i0 = skip_ws_chars(v, i);
    let (x, j) = match parse_string_chars(v, i0) {
        Some(p) => p,
        None => {
            return None;
        },
    };
    let xs = chars_to_string(&x);
    let j1 = skip_ws_chars(v, j);
    if j1 < v.len() && v[j1] == ',' && i < j1 {
        match parse_members_items_chars(v, j1 + 1) {
            Some((mut rest, k)) => {
                let ghost t = rest.deep_view();
                rest.insert(0, xs);
                proof {
                    assert(rest.deep_view() =~= seq![x@] + t);
                }
                Some((rest, k))
            },
            None => None,
        }
    } else if j1 < v.len() && v[j1] == ']' {
        let mut out: Vec<String> = Vec::new();
        out.push(xs);
        proof {
            assert(out.deep_view() =~= seq![x@]);
        }
        Some((out, j1 + 1))
    } else {
        None
    }
}

/// Parses the members array at `i`.
fn parse_members_chars(v: &Vec<char>, i: usize) -> (r: Option<(Vec<String>, usize)>)
    requires
        i <= v@.len(),
    ensures
        r matches Some(p) ==> parse_members(v@, i as int) == Some(
            (p.0.deep_view(), p.1 as int),
        ) && i < p.1 <= v@.len(),
        r is None ==> parse_members(v@, i as int) is None,
{
    if i < v.len() && v[i] == '[' {
        let i1 = skip_ws_chars(v, i + 1);
        if i1 < v.len() && v[i1] == ']' {
            let out: Vec<String> = Vec::new();
            proof {
                assert(out.deep_view() =~= Seq::<Seq<char>>::empty());
            }
            Some((out, i1 + 1))
        } else {
            parse_members_items_chars(v, i + 1)
        }
    } else {
        None
    }
}

/// Parses the items of the lists array, through the closing bracket.
fn parse_lists_items_chars(v: &Vec<char>, i: usize) -> (r: Option<(Vec<List>, usize)>)
    requires
        i <= v@.len(),
    ensures
        r matches Some(p) ==> parse_lists_items(v@, i as int) == Some(
            (lists_view(p.0@), p.1 as int),
        ) && i < p.1 <= v@.len(),
        r is None ==> parse_lists_items(v@, i as int) is None,
    decreases v@.len() - i,
{
    let i0 = skip_ws_chars(v, i);
    let (x, j) = match parse_list_obj_chars(v, i0) {
        Some(p) => p,
        None => {
            return None;
        },
    };
    let j1 = skip_ws_chars(v, j);
    if j1 < v.len() && v[j1] == ',' && i < j1 {
        match parse_lists_items_chars(v, j1 + 1) {
            Some((mut rest, k)) => {
                let ghost t = rest@;
                rest.insert(0, x);
                proof {
                    assert(lists_view(rest@) =~= seq![rest@[0]@] + lists_view(t));
                }
                Some((rest, k))
            },
            None => None,
        }
    } else if j1 < v.len() && v[j1] == ']' {
        let ghost xv = x@;
        let mut out: Vec<List> = Vec::new();
        out.push(x);
        proof {
            assert(lists_view(out@) =~= seq![xv]);
        }
        Some((out, j1 + 1))
    } else {
        None
    }
}

/// Parses the lists array at `i`.
fn parse_lists_chars(v: &Vec<char>, i: usize) -> (r: Option<(Vec<List>, usize)>)
    requires
        i <= v@.len(),
    ensures
        r matches Some(p) ==> parse_lists(v@, i as int) == Some((lists_view(p.0@), p.1 as int))
            && i < p.1 <= v@.len(),
        r is None ==> parse_lists(v@, i as int) is None,
{
    if i < v.len() && v[i] == '[' {
        let i1 = skip_ws_chars(v, i + 1);
        if i1 < v.len() && v[i1] == ']' {
            let out: Vec<List> = Vec::new();
            proof {
                assert(lists_view(out@) =~= Seq::<ListView>::empty());
            }
            Some((out, i1 + 1))
        } else {
            parse_lists_items_chars(v, i + 1)
        }
    } else {
        None
    }
}

/// Parses the items of the cards array, through the closing bracket.
fn parse_cards_items_chars(v: &Vec<char>, i: usize) -> (r: Option<(Vec<Card>, usize)>)
    requires
        i <= v@.len(),
    ensures
        r matches Some(p) ==> parse_cards_items(v@, i as int) == Some((p.0@, p.1 as int)) && i
            < p.1 <= v@.len(),
        r is None ==> parse_cards_items(v@, i as int) is None,
    decreases v@.len() - i,
{
    let i0 = skip_ws_chars(v, i);
    let (x, j) = match parse_card_obj_chars(v, i0) {
        Some(p) => p,
        None => {
            return None;
        },
    };
    let j1 = skip_ws_chars(v, j);
    if j1 < v.len() && v[j1] == ',' && i < j1 {
        match parse_cards_items_chars(v, j1 + 1) {
            Some((mut rest, k)) => {
                let ghost t = rest@;
                rest.insert(0, x);
                proof {
                    assert(rest@ =~= seq![x] + t);
                }
                Some((rest, k))
            },
            None => None,
        }
    } else if j1 < v.len() && v[j1] == ']' {
        let mut out: Vec<Card> = Vec::new();
        out.push(x);
        proof {
            assert(out@ =~= seq![x]);
        }
        Some((out, j1 + 1))
    } else {
        None
    }
}

/// Parses the cards array at `i`.
fn parse_cards_chars(v: &Vec<char>, i: usize) -> (r: Option<(Vec<Card>, usize)>)
    requires
        i <= v@.len(),
    ensures
        r matches Some(p) ==> parse_cards(v@, i as int) == Some((p.0@, p.1 as int)) && i < p.1
            <= v@.len(),
        r is None ==> parse_cards(v@, i as int) is None,
{
    if i < v.len() && v[i] == '[' {
        let i1 = skip_ws_chars(v, i + 1);
        if i1 < v.len() && v[i1] == ']' {
            let out: Vec<Card> = Vec::new();
            proof {
                assert(out@ =~= Seq::<Card>::empty());
            }
            Some((out, i1 + 1))
        } else {
            parse_cards_items_chars(v, i + 1)
        }
    } else {
        None
    }
}

/// After one member of the inner board object: continue at a comma, or
/// close at a brace when every member has been seen.
fn board_members_step_chars(
    v: &Vec<char>,
    i: usize,
    j3: usize,
    seed: Option<u32>,
    url: Option<String>,
    members: Option<Vec<String>>,
    lists: Option<Vec<List>>,
    cards: Option<Vec<Card>>,
    currency: Option<String>,
) -> (r: Option<(Board, usize)>)
    requires
        i <= v@.len(),
        i <= j3,
        j3 <= v@.len(),
    ensures
        r matches Some(p) ==> board_members_step(
            v@,
            i as int,
            j3 as int,
            seed,
            str_opt_view(url),
            members_opt_view(members),
            lists_opt_view(lists),
            cards_opt_view(cards),
            str_opt_view(currency),
        ) == Some((p.0@, p.1 as int)) && i < p.1 <= v@.len(),
        r is None ==> board_members_step(
            v@,
            i as int,
            j3 as int,
            seed,
            str_opt_view(url),
            members_opt_view(members),
            lists_opt_view(lists),
            cards_opt_view(cards),
            str_opt_view(currency),
        ) is None,
    decreases v@.len() - i, 0int,
{
    let j4 = skip_ws_chars(v, j3);
    if j4 < v.len() && v[j4] == ',' && i < j4 {
        parse_board_members_chars(v, j4 + 1, seed, url, members, lists, cards, currency)
    } else if j4 < v.len() && v[j4] == '}' && seed.is_some() && url.is_some() && members.is_some()
        && lists.is_some() && cards.is_some() && currency.is_some() {
        let ghost bv = crate::board::BoardView {
            seed: seed.unwrap(),
            url: str_opt_view(url).unwrap(),
            members: members_opt_view(members).unwrap(),
            lists: lists_opt_view(lists).unwrap(),
            cards: cards_opt_view(cards).unwrap(),
            currency: str_opt_view(currency).unwrap(),
        };
        let b = Board {
            seed: seed.unwrap(),
            url: url.unwrap(),
            members: members.unwrap(),
            lists: lists.unwrap(),
            cards: cards.unwrap(),
            currency: currency.unwrap(),
        };
        proof {
            assert(b@.seed == bv.seed);
            assert(b@.url == bv.url);
            assert(b@.members == bv.members);
            assert(b@.lists == bv.lists);
            assert(b@.cards == bv.cards);
            assert(b@.currency == bv.currency);
            assert(b@ == bv);
        }
        Some((b, j4 + 1))
    } else {
        None
    }
}

/// Parses the members of the inner board object, given the fields already
/// seen.
fn parse_board_members_chars(
    v: &Vec<char>,
    i: usize,
    seed: Option<u32>,
    url: Option<String>,
    members: Option<Vec<String>>,
    lists: Option<Vec<List>>,
    cards: Option<Vec<Card>>,
    currency: Option<String>,
) -> (r: Option<(Board, usize)>)
    requires
        i <= v@.len(),
    ensures
        r matches Some(p) ==> parse_board_members(
            v@,
            i as int,
            seed,
            str_opt_view(url),
            members_opt_view(members),
            lists_opt_view(lists),
            cards_opt_view(cards),
            str_opt_view(currency),
        ) == Some((p.0@, p.1 as int)) && i < p.1 <= v@.len(),
        r is None ==> parse_board_members(
            v@,
            i as int,
            seed,
            str_opt_view(url),
            members_opt_view(members),
            lists_opt_view(lists),
            cards_opt_view(cards),
            str_opt_view(currency),
        ) is None,
    decreases v@.len() - i, 1int,
{
    let i0 = skip_ws_chars(v, i);
    let (key, j0) = match parse_string_chars(v, i0) {
        Some(p) => p,
        None => {
            return None;
        },
    };
    let j1 = skip_ws_chars(v, j0);
    if !(j1 < v.len() && v[j1] == ':') {
        return None;
    }
    let j2 = skip_ws_chars(v, j1 + 1);
    if chars_eq_lit(&key, "seed") {
        if seed.is_some() {
            return None;
        }
        match parse_u32_chars(v, j2) {
            Some((x, j3)) => board_members_step_chars(
                v,
                i,
                j3,
                Some(x),
                url,
                members,
                lists,
                cards,
                currency,
            ),
            None => None,
        }
    } else if chars_eq_lit(&key, "url") {
        if url.is_some() {
            return None;
        }
        match parse_string_chars(v, j2) {
            Some((x, j3)) => {
                let xs = chars_to_string(&x);
                board_members_step_chars(v, i, j3, seed, Some(xs), members, lists, cards, currency)
            },
            None => None,
        }
    } else if chars_eq_lit(&key, "members") {
        if members.is_some() {
            return None;
        }
        match parse_members_chars(v, j2) {
            Some((x, j3)) => board_members_step_chars(
                v,
                i,
                j3,
                seed,
                url,
                Some(x),
                lists,
                cards,
                currency,
            ),
            None => None,
        }
    } else if chars_eq_lit(&key, "lists") {
        if lists.is_some() {
            return None;
        }
        match parse_lists_chars(v, j2) {
            Some((x, j3)) => board_members_step_chars(
                v,
                i,
                j3,
                seed,
                url,
                members,
                Some(x),
                cards,
                currency,
            ),
            None => None,
        }
    } else if chars_eq_lit(&key, "cards") {
        if cards.is_some() {
            return None;
        }
        match parse_cards_chars(v, j2) {
            Some((x, j3)) => board_members_step_chars(
                v,
                i,
                j3,
                seed,
                url,
                members,
                lists,
                Some(x),
                currency,
            ),
            None => None,
        }
    } else if chars_eq_lit(&key, "currency") {
        if currency.is_some() {
            return None;
        }
        match parse_string_chars(v, j2) {
            Some((x, j3)) => {
                let xs = chars_to_string(&x);
                board_members_step_chars(v, i, j3, seed, url, members, lists, cards, Some(xs))
            },
            None => None,
        }
    } else {
        None
    }
}

/// Parses the board envelope at `i`.
fn parse_board_chars(v: &Vec<char>, i: usize) -> (r: Option<(Board, usize)>)
    requires
        i <= v@.len(),
    ensures
        r matches Some(p) ==> parse_board(v@, i as int) == Some((p.0@, p.1 as int)) && i < p.1
            <= v@.len(),
        r is None ==> parse_board(v@, i as int) is None,
{
    let i0 = skip_ws_chars(v, i);
    if !(i0 < v.len() && v[i0] == '{') {
        return None;
    }
    let i1 = skip_ws_chars(v, i0 + 1);
    let (key, j0) = match parse_string_chars(v, i1) {
        Some(p) => p,
        None => {
            return None;
        },
    };
    if !chars_eq_lit(&key, "Board") {
        return None;
    }
    let j1 = skip_ws_chars(v, j0);
    if !(j1 < v.len() && v[j1] == ':') {
        return None;
    }
    let j2 = skip_ws_chars(v, j1 + 1);
    if !(j2 < v.len() && v[j2] == '{') {
        return None;
    }
    let (b, j3) = match parse_board_members_chars(v, j2 + 1, None, None, None, None, None, None) {
        Some(p) => p,
        None => {
            return None;
        },
    };
    let j4 = skip_ws_chars(v, j3);
    if j4 < v.len() && v[j4] == '}' {
        Some((b, j4 + 1))
    } else {
        None
    }
}

/// Decodes a payload as a JSON document of the board envelope. Yields the
/// board the document denotes, and nothing on any other payload.
pub fn decode_board(s: &str) -> (r: Option<Board>)
    ensures
        r matches Some(b) ==> spec_decode_board(s@) == Some(b@),
        r is None ==> spec_decode_board(s@) is None,
{
    let v = str_to_chars(s);
    match parse_board_chars(&v, 0) {
        Some((b, j)) => {
            let e = skip_ws_chars(&v, j);
            if e == v.len() {
                Some(b)
            } else {
                None
            }
        },
        None => None,
    }
}

/// Appends the text of a string slice to `out`.
fn push_lit(out: &mut Vec<char>, lit: &str)
    ensures
        final(out)@ == old(out)@ + lit@,
{
    let n = lit.unicode_len();
    let mut k: usize = 0;
    while k < n
        invariant
            n == lit@.len(),
            k <= n,
            out@ == old(out)@ + lit@.subrange(0, k as int),
        decreases n - k,
    {
        out.push(lit.get_char(k));
        proof {
            assert(out@ =~= old(out)@ + lit@.subrange(0, k + 1));
        }
        k = k + 1;
    }
    proof {
        assert(lit@.subrange(0, n as int) =~= lit@);
    }
}

/// Appends the JSON text of one list object to `out`.
fn push_list(out: &mut Vec<char>, l: &List)
    ensures
        final(out)@ == old(out)@ + json_of_list(l@),
{
    push_lit(out, "{\"list_id\":");
    push_u64_digits(out, l.list_id as u64);
    push_lit(out, ",\"name\":");
    push_json_string(out, l.name.as_str());
    push_lit(out, ",\"bounty_payout_percentage\":");
    push_u64_digits(out, l.bounty_payout_percentage as u64);
    push_lit(out, "}");
    proof {
        assert(out@ =~= old(out)@ + json_of_list(l@));
    }
}

/// Appends the JSON text of one card object to `out`.
fn push_card(out: &mut Vec<char>, c: &Card)
    ensures
        final(out)@ == old(out)@ + json_of_card(*c),
{
    push_lit(out, "{\"card_id\":");
    push_u64_digits(out, c.card_id as u64);
    push_lit(out, ",\"list_id\":");
    push_u64_digits(out, c.list_id as u64);
    push_lit(out, ",\"bounty\":");
    push_u64_digits(out, c.bounty);
    push_lit(out, "}");
    proof {
        assert(out@ =~= old(out)@ + json_of_card(*c));
    }
}

/// Appends the item texts of the members from index `k` on.
fn push_members_from(out: &mut Vec<char>, ms: &Vec<String>, k: usize)
    requires
        k < ms@.len(),
    ensures
        final(out)@ == old(out)@ + members_items(ms.deep_view().skip(k as int)),
    decreases ms@.len() - k,
{
    let n = ms.len();
    push_json_string(out, ms[k].as_str());
    let ghost tail = ms.deep_view().skip(k as int);
    proof {
        assert(tail[0] == ms.deep_view()[k as int]);
    }
    if k + 1 < n {
        out.push(',');
        push_members_from(out, ms, k + 1);
        proof {
            assert(tail.drop_first() =~= ms.deep_view().skip(k + 1));
            assert(members_items(tail) == json_string(tail[0]) + seq![','] + members_items(
                tail.drop_first(),
            ));
            assert(out@ =~= old(out)@ + members_items(tail));
        }
    } else {
        proof {
            assert(tail.len() == 1);
            assert(members_items(tail) == json_string(tail[0]));
            assert(out@ =~= old(out)@ + members_items(tail));
        }
    }
}

/// Appends the JSON text of the members array to `out`.
fn push_members(out: &mut Vec<char>, ms: &Vec<String>)
    ensures
        final(out)@ == old(out)@ + json_of_members(ms.deep_view()),
{
    out.push('[');
    if ms.len() > 0 {
        push_members_from(out, ms, 0);
        proof {
            assert(ms.deep_view().skip(0) =~= ms.deep_view());
        }
    }
    out.push(']');
    proof {
        if ms.deep_view().len() == 0 {
            assert(members_items(ms.deep_view()) == Seq::<char>::empty());
        }
        assert(out@ =~= old(out)@ + json_of_members(ms.deep_view()));
    }
}

/// Appends the item texts of the lists from index `k` on.
fn push_lists_from(out: &mut Vec<char>, ls: &Vec<List>, k: usize)
    requires
        k < ls@.len(),
    ensures
        final(out)@ == old(out)@ + lists_items(lists_view(ls@).skip(k as int)),
    decreases ls@.len() - k,
{
    let n = ls.len();
    push_list(out, &ls[k]);
    let ghost tail = lists_view(ls@).skip(k as int);
    proof {
        assert(tail[0] == lists_view(ls@)[k as int]);
    }
    if k + 1 < n {
        out.push(',');
        push_lists_from(out, ls, k + 1);
        proof {
            assert(tail.drop_first() =~= lists_view(ls@).skip(k + 1));
            assert(lists_items(tail) == json_of_list(tail[0]) + seq![','] + lists_items(
                tail.drop_first(),
            ));
            assert(out@ =~= old(out)@ + lists_items(tail));
        }
    } else {
        proof {
            assert(tail.len() == 1);
            assert(lists_items(tail) == json_of_list(tail[0]));
            assert(out@ =~= old(out)@ + lists_items(tail));
        }
    }
}

/// Appends the JSON text of the lists array to `out`.
fn push_lists(out: &mut Vec<char>, ls: &Vec<List>)
    ensures
        final(out)@ == old(out)@ + json_of_lists(lists_view(ls@)),
{
    out.push('[');
    if ls.len() > 0 {
        push_lists_from(out, ls, 0);
        proof {
            assert(lists_view(ls@).skip(0) =~= lists_view(ls@));
        }
    }
    out.push(']');
    proof {
        if lists_view(ls@).len() == 0 {
            assert(lists_items(lists_view(ls@)) == Seq::<char>::empty());
        }
        assert(out@ =~= old(out)@ + json_of_lists(lists_view(ls@)));
    }
}

/// Appends the item texts of the cards from index `k` on.
fn push_cards_from(out: &mut Vec<char>, cs: &Vec<Card>, k: usize)
    requires
        k < cs@.len(),
    ensures
        final(out)@ == old(out)@ + cards_items(cs@.skip(k as int)),
    decreases cs@.len() - k,
{
    let n = cs.len();
    push_card(out, &cs[k]);
    let ghost tail = cs@.skip(k as int);
    proof {
        assert(tail[0] == cs@[k as int]);
    }
    if k + 1 < n {
        out.push(',');
        push_cards_from(out, cs, k + 1);
        proof {
            assert(tail.drop_first() =~= cs@.skip(k + 1));
            assert(cards_items(tail) == json_of_card(tail[0]) + seq![','] + cards_items(
                tail.drop_first(),
            ));
            assert(out@ =~= old(out)@ + cards_items(tail));
        }
    } else {
        proof {
            assert(tail.len() == 1);
            assert(cards_items(tail) == json_of_card(tail[0]));
            assert(out@ =~= old(out)@ + cards_items(tail));
        }
    }
}

/// Appends the JSON text of the cards array to `out`.
fn push_cards(out: &mut Vec<char>, cs: &Vec<Card>)
    ensures
        final(out)@ == old(out)@ + json_of_cards(cs@),
{
    out.push('[');
    if cs.len() > 0 {
        push_cards_from(out, cs, 0);
        proof {
            assert(cs@.skip(0) =~= cs@);
        }
    }
    out.push(']');
    proof {
        if cs@.len() == 0 {
            assert(cards_items(cs@) == Seq::<char>::empty());
        }
        assert(out@ =~= old(out)@ + json_of_cards(cs@));
    }
}

/// Encodes a board as its canonical JSON text.
#[verifier::rlimit(50)]
pub fn board_to_json(b: &Board) -> (r: String)
    ensures
        r@ == json_of_board(b@),
{
    let mut out: Vec<char> = Vec::new();
    push_lit(&mut out, "{\"Board\":{\"seed\":");
    push_u64_digits(&mut out, b.seed as u64);
    push_lit(&mut out, ",\"url\":");
    push_json_string(&mut out, b.url.as_str());
    push_lit(&mut out, ",\"members\":");
    push_members(&mut out, &b.members);
    push_lit(&mut out, ",\"lists\":");
    push_lists(&mut out, &b.lists);
    push_lit(&mut out, ",\"cards\":");
    push_cards(&mut out, &b.cards);
    push_lit(&mut out, ",\"currency\":");
    push_json_string(&mut out, b.currency.as_str());
    push_lit(&mut out, "}}");
    proof {
        assert(out@ =~= json_of_board(b@));
    }
    chars_to_string(&out)
}

} // verus!
