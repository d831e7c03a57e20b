//! The decoded domain object: a board with members, lists and cards, and the
//! fixed fallback value substituted when a stored payload does not decode.

use vstd::prelude::*;
use vstd::string::StringExecFns;

verus! {

/// A card on a list, with its bounty in base token units.
#[derive(Debug, Clone, Copy, PartialEq, Eq, Structural)]
pub struct Card {
    pub card_id: u32,
    pub list_id: u32,
    pub bounty: u64,
}

/// A list of cards, with its payout share.
#[derive(Debug, Clone, PartialEq, Eq)]
pub struct List {
    pub list_id: u32,
    pub name: String,
    pub bounty_payout_percentage: u32,
}

/// The board: seed, url, member names, lists, cards and currency.
#[derive(Debug, Clone, PartialEq, Eq)]
pub struct Board {
    pub seed: u32,
    pub url: String,
    pub members: Vec<String>,
    pub lists: Vec<List>,
    pub cards: Vec<Card>,
    pub currency: String,
}

/// Mathematical image of a `List`.
pub struct ListView {
    pub list_id: u32,
    pub name: Seq<char>,
    pub bounty_payout_percentage: u32,
}

/// Mathematical image of a `Board`.
pub struct BoardView {
    pub seed: u32,
    pub url: Seq<char>,
    pub members: Seq<Seq<char>>,
    pub lists: Seq<ListView>,
    pub cards: Seq<Card>,
    pub currency: Seq<char>,
}

/// The images of a sequence of lists.
pub open spec fn lists_view(ls: Seq<List>) -> Seq<ListView> {
    Seq::new(ls.len(), |i: int| ls[i]@)
}

impl View for List {
    type V = ListView;

    open spec fn view(&self) -> ListView {
        ListView {
            list_id: self.list_id,
            name: self.name@,
            bounty_payout_percentage: self.bounty_payout_percentage,
        }
    }
}

impl View for Board {
    type V = BoardView;

    open spec fn view(&self) -> BoardView {
        BoardView {
            seed: self.seed,
            url: self.url@,
            members: self.members.deep_view(),
            lists: lists_view(self.lists@),
            cards: self.cards@,
            currency: self.currency@,
        }
    }
}

/// The fallback board value, field by field.
pub open spec fn fallback_board_view() -> BoardView {
    BoardView {
        seed: 12,
        url: "A"@,
        members: seq!["None"@],
        lists: seq![
            ListView { list_id: 1, name: "A"@, bounty_payout_percentage: 0 },
        ],
        cards: seq![Card { card_id: 1, list_id: 1, bounty: 0 }],
        currency: "None"@,
    }
}

/// The board substituted when a stored payload does not decode.
pub fn fallback_board() -> (r: Board)
    ensures
        r@ == fallback_board_view(),
{
    let members: Vec<String> = vec![String::from_str("None")];
    let lists: Vec<List> = vec![
        List { list_id: 1, name: String::from_str("A"), bounty_payout_percentage: 0 },
    ];
    let cards: Vec<Card> = vec![Card { card_id: 1, list_id: 1, bounty: 0 }];
    let r = Board {
        seed: 12,
        url: String::from_str("A"),
        members,
        lists,
        cards,
        currency: String::from_str("None"),
    };
    proof {
        assert(r@.members =~= fallback_board_view().members);
        assert(r@.lists =~= fallback_board_view().lists);
        assert(r@.cards =~= fallback_board_view().cards);
    }
    r
}

} // verus!
