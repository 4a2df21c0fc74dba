//! The order in which moves are searched.

use vstd::prelude::*;
use crate::board::{Board, BoardView};
use crate::types::{Move, PieceType};

verus! {

/// The two killer moves of one ply, the more recent first.
pub type Killers = (Option<Move>, Option<Move>);

/// What a captured piece counts for when moves are ordered.
pub open spec fn victim_value(kind: PieceType) -> int {
    match kind {
        PieceType::King | PieceType::ChessKing => 20000,
        PieceType::ChessQueen => 950,
        PieceType::Rook | PieceType::ChessRook => 500,
        PieceType::Bishop | PieceType::ChessBishop => 330,
        PieceType::Gold => 600,
        PieceType::Silver => 500,
        PieceType::Knight | PieceType::ChessKnight => 320,
        PieceType::Lance => 300,
        PieceType::Pawn | PieceType::ChessPawn => 100,
    }
}

/// Whether `slot` holds the same candidate as `m`.
pub open spec fn holds(slot: Option<Move>, m: Move) -> bool {
    slot matches Some(k) && m.same_as(k)
}

/// The key by which a move is ordered; smaller keys are tried first. The
/// table's move comes before captures, captures by the value of the victim
/// before killer moves, those before promotions, and all of these before the
/// rest.
pub open spec fn order_key(b: BoardView, m: Move, tt_move: Option<Move>, killers: Killers) -> int {
    (if holds(tt_move, m) {
        -30000int
    } else {
        0
    }) + (match b.at(m.to) {
        Some(victim) => -(10000 + victim_value(victim.piece_type)),
        None => 0,
    }) + (if holds(killers.0, m) {
        -5000int
    } else if holds(killers.1, m) {
        -4000
    } else {
        0
    }) + (if m.promotion {
        -3000int
    } else {
        0
    })
}

/// `order_key` as a function of the move.
pub open spec fn order_key_fn(b: BoardView, tt_move: Option<Move>, killers: Killers) -> spec_fn(
    Move,
) -> int {
    |m: Move| order_key(b, m, tt_move, killers)
}

/// `sorted` with `m` put behind its last move whose key is not larger.
pub open spec fn insert_by_key(sorted: Seq<Move>, m: Move, key: spec_fn(Move) -> int) -> Seq<Move>
    decreases sorted.len(),
{
    if sorted.len() == 0 {
        seq![m]
    } else if key(sorted.last()) <= key(m) {
        sorted.push(m)
    } else {
        insert_by_key(sorted.drop_last(), m, key).push(sorted.last())
    }
}

/// The moves of `s` in ascending order of their keys, moves of equal key in
/// the order in which they stand in `s`.
pub open spec fn sorted_by_key(s: Seq<Move>, key: spec_fn(Move) -> int) -> Seq<Move>
    decreases s.len(),
{
    if s.len() == 0 {
        s
    } else {
        insert_by_key(sorted_by_key(s.drop_last(), key), s.last(), key)
    }
}

/// Where every move from `j` on has a larger key than `m` and the move before
/// `j`, if any, has not, `m` is put at `j`.
proof fn lemma_insert_position(sorted: Seq<Move>, m: Move, key: spec_fn(Move) -> int, j: int)
    requires
        0 <= j <= sorted.len(),
        forall|t: int| j <= t < sorted.len() ==> key(#[trigger] sorted[t]) > key(m),
        j > 0 ==> key(sorted[j - 1]) <= key(m),
    ensures
        insert_by_key(sorted, m, key) == sorted.insert(j, m),
    decreases sorted.len(),
{
    if sorted.len() == 0 {
        assert(seq![m] =~= sorted.insert(j, m));
    } else if j == sorted.len() {
        assert(sorted.push(m) =~= sorted.insert(j, m));
    } else {
        assert(key(sorted[sorted.len() - 1]) > key(m));
        let front = sorted.drop_last();
        assert forall|t: int| j <= t < front.len() implies key(#[trigger] front[t]) > key(m) by {
            assert(front[t] == sorted[t]);
        }
        lemma_insert_position(front, m, key, j);
        assert(front.insert(j, m).push(sorted.last()) =~= sorted.insert(j, m));
    }
}

/// Inserting keeps every move and adds only the inserted one.
pub proof fn lemma_insert_same_moves(sorted: Seq<Move>, m: Move, key: spec_fn(Move) -> int)
    ensures
        insert_by_key(sorted, m, key).len() == sorted.len() + 1,
        forall|x: Move|
            #[trigger] insert_by_key(sorted, m, key).contains(x) <==> (x == m || sorted.contains(x)),
    decreases sorted.len(),
{
    let out = insert_by_key(sorted, m, key);
    if sorted.len() == 0 {
        assert(out[0] == m);
        assert forall|x: Move| #[trigger] out.contains(x) <==> (x == m || sorted.contains(x)) by {
            if x == m {
                assert(out[0] == x);
            }
        }
    } else if key(sorted.last()) <= key(m) {
        assert forall|x: Move| #[trigger] out.contains(x) <==> (x == m || sorted.contains(x)) by {
            if out.contains(x) {
                let i = choose|i: int| 0 <= i < out.len() && out[i] == x;
                if i < sorted.len() {
                    assert(sorted[i] == x);
                }
            }
            if x == m {
                assert(out[sorted.len() as int] == x);
            }
            if sorted.contains(x) {
                let i = choose|i: int| 0 <= i < sorted.len() && sorted[i] == x;
                assert(out[i] == x);
            }
        }
    } else {
        let front = sorted.drop_last();
        let inner = insert_by_key(front, m, key);
        lemma_insert_same_moves(front, m, key);
        assert forall|x: Move| #[trigger] out.contains(x) <==> (x == m || sorted.contains(x)) by {
            if out.contains(x) {
                let i = choose|i: int| 0 <= i < out.len() && out[i] == x;
                if i < inner.len() {
                    assert(inner[i] == x);
                    assert(inner.contains(x));
                    if x != m {
                        let t = choose|t: int| 0 <= t < front.len() && front[t] == x;
                        assert(sorted[t] == x);
                    }
                } else {
                    assert(sorted[sorted.len() - 1] == x);
                }
            }
            if x == m {
                assert(inner.contains(x));
                let i = choose|i: int| 0 <= i < inner.len() && inner[i] == x;
                assert(out[i] == x);
            }
            if sorted.contains(x) {
                let t = choose|t: int| 0 <= t < sorted.len() && sorted[t] == x;
                if t < front.len() {
                    assert(front[t] == x);
                    assert(front.contains(x));
                    assert(inner.contains(x));
                    let i = choose|i: int| 0 <= i < inner.len() && inner[i] == x;
                    assert(out[i] == x);
                } else {
                    assert(out[out.len() - 1] == x);
                }
            }
        }
    }
}

/// Sorting neither loses nor invents a move.
pub proof fn lemma_sorted_same_moves(s: Seq<Move>, key: spec_fn(Move) -> int)
    ensures
        sorted_by_key(s, key).len() == s.len(),
        forall|x: Move| #[trigger] sorted_by_key(s, key).contains(x) <==> s.contains(x),
    decreases s.len(),
{
    if s.len() > 0 {
        let front = s.drop_last();
        lemma_sorted_same_moves(front, key);
        lemma_insert_same_moves(sorted_by_key(front, key), s.last(), key);
        let out = sorted_by_key(s, key);
        assert forall|x: Move| #[trigger] out.contains(x) <==> s.contains(x) by {
            if s.contains(x) {
                let t = choose|t: int| 0 <= t < s.len() && s[t] == x;
                if t < front.len() {
                    assert(front[t] == x);
                    assert(front.contains(x));
                }
            }
            if out.contains(x) && x != s.last() {
                assert(front.contains(x));
                let t = choose|t: int| 0 <= t < front.len() && front[t] == x;
                assert(s[t] == x);
            }
            if x == s.last() {
                assert(s[s.len() - 1] == x);
            }
        }
    }
}

/// The value of a captured piece for move ordering.
pub fn piece_value(piece_type: &PieceType) -> (v: i32)
    ensures
        v == victim_value(*piece_type),
{
    match piece_type {
        PieceType::King | PieceType::ChessKing => 20000,
        PieceType::ChessQueen => 950,
        PieceType::Rook | PieceType::ChessRook => 500,
        PieceType::Bishop | PieceType::ChessBishop => 330,
        PieceType::Gold => 600,
        PieceType::Silver => 500,
        PieceType::Knight | PieceType::ChessKnight => 320,
        PieceType::Lance => 300,
        PieceType::Pawn | PieceType::ChessPawn => 100,
    }
}

/// Whether `slot` holds the same candidate as `m`.
pub fn slot_holds(slot: &Option<Move>, m: &Move) -> (yes: bool)
    ensures
        yes == holds(*slot, *m),
{
    match slot {
        Some(k) => m.same(k),
        None => false,
    }
}

/// The ordering key of a move.
fn move_key(board: &Board, m: &Move, tt_move: &Option<Move>, killers: &Killers) -> (k: i32)
    ensures
        k == order_key(board@, *m, *tt_move, *killers),
{
    let mut score: i32 = 0;
    if slot_holds(tt_move, m) {
        score -= 30000;
    }
    if let Some(victim) = board.get(m.to) {
        let victim_value = piece_value(&victim.piece_type);
        score -= 10000 + victim_value;
    }
    if slot_holds(&killers.0, m) {
        score -= 5000;
    } else if slot_holds(&killers.1, m) {
        score -= 4000;
    }
    if m.promotion {
        score -= 3000;
    }
    score
}

/// Sorts `moves` by ascending ordering key, keeping moves of equal key in
/// their order.
pub fn sort_moves(board: &Board, moves: &mut Vec<Move>, tt_move: &Option<Move>, killers: &Killers)
    ensures
        final(moves)@ == sorted_by_key(old(moves)@, order_key_fn(board@, *tt_move, *killers)),
{
    let ghost key = order_key_fn(board@, *tt_move, *killers);
    let ghost input = moves@;
    let mut out: Vec<Move> = Vec::new();
    let mut out_keys: Vec<i32> = Vec::new();
    let n = moves.len();
    let mut i: usize = 0;
    assert(input.subrange(0, 0) =~= Seq::empty());
    while i < n
        invariant
            moves@ == input,
            n == input.len(),
            i <= n,
            key == order_key_fn(board@, *tt_move, *killers),
            out@ == sorted_by_key(input.subrange(0, i as int), key),
            out_keys@.len() == out@.len(),
            forall|t: int| 0 <= t < out@.len() ==> out_keys@[t] == key(#[trigger] out@[t]),
        decreases n - i,
    {
        let m = moves[i];
        let k = move_key(board, &m, tt_move, killers);
        let mut j: usize = out.len();
        while j > 0 && out_keys[j - 1] > k
            invariant
                j <= out@.len(),
                out_keys@.len() == out@.len(),
                forall|t: int| j <= t < out@.len() ==> out_keys@[t] > k,
            decreases j,
        {
            j -= 1;
        }
        proof {
            assert(key(m) == k);
            lemma_insert_position(out@, m, key, j as int);
            let now = input.subrange(0, i + 1);
            assert(now.drop_last() =~= input.subrange(0, i as int));
            assert(now.last() == m);
        }
        out.insert(j, m);
        out_keys.insert(j, k);
        i += 1;
    }
    assert(input.subrange(0, n as int) =~= input);
    *moves = out;
}

/// Whether the keys of `s` never fall from one move to the next.
pub open spec fn ascending(s: Seq<Move>, key: spec_fn(Move) -> int) -> bool {
    forall|i: int, j: int| 0 <= i < j < s.len() ==> key(#[trigger] s[i]) <= key(#[trigger] s[j])
}

/// Inserting into ascending moves leaves them ascending.
proof fn lemma_insert_ascends(sorted: Seq<Move>, m: Move, key: spec_fn(Move) -> int)
    requires
        ascending(sorted, key),
    ensures
        ascending(insert_by_key(sorted, m, key), key),
    decreases sorted.len(),
{
    let out = insert_by_key(sorted, m, key);
    if sorted.len() == 0 {
    } else if key(sorted.last()) <= key(m) {
        assert forall|i: int, j: int| 0 <= i < j < out.len() implies key(#[trigger] out[i]) <= key(
            #[trigger] out[j],
        ) by {
            if j < sorted.len() {
                assert(key(sorted[i]) <= key(sorted[j]));
            } else if i < sorted.len() - 1 {
                assert(key(sorted[i]) <= key(sorted[sorted.len() - 1]));
            }
        }
    } else {
        let front = sorted.drop_last();
        assert forall|i: int, j: int| 0 <= i < j < front.len() implies key(#[trigger] front[i])
            <= key(#[trigger] front[j]) by {
            assert(key(sorted[i]) <= key(sorted[j]));
        }
        lemma_insert_ascends(front, m, key);
        lemma_insert_same_moves(front, m, key);
        let inner = insert_by_key(front, m, key);
        assert forall|i: int, j: int| 0 <= i < j < out.len() implies key(#[trigger] out[i]) <= key(
            #[trigger] out[j],
        ) by {
            if j < inner.len() {
                assert(key(inner[i]) <= key(inner[j]));
            } else {
                assert(inner.contains(inner[i]));
                if inner[i] != m {
                    let t = choose|t: int| 0 <= t < front.len() && front[t] == inner[i];
                    assert(key(sorted[t]) <= key(sorted[sorted.len() - 1]));
                }
            }
        }
    }
}

/// Sorted moves stand in ascending order of their keys: with `order_key`,
/// the table's move before captures, captures of more valuable pieces before
/// those of lesser ones, captures before killer moves, and those before the
/// rest.
pub proof fn lemma_sorted_ascends(s: Seq<Move>, key: spec_fn(Move) -> int)
    ensures
        ascending(sorted_by_key(s, key), key),
    decreases s.len(),
{
    if s.len() > 0 {
        lemma_sorted_ascends(s.drop_last(), key);
        lemma_insert_ascends(sorted_by_key(s.drop_last(), key), s.last(), key);
    }
}

} // verus!
