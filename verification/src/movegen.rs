//! Move generation: per-kind pseudo-legal destination rules, ray casting
//! for the sliding pieces, the check oracle over raw attacks, the
//! king-safety filter, and the restricted checkmate test.
use vstd::prelude::*;

use crate::board::{Board, BoardView, spec_apply, spec_king_coord};
use crate::pieces::{Color, Coordinate, Piece, Pieces, coord_in_range, in_range, other_color, sq};

verus! {

broadcast use vstd::seq_lib::lemma_seq_contains_after_push;

/// No square appears twice in a destination list.
pub open spec fn nodup(s: Seq<Coordinate>) -> bool {
    forall|i: int, j: int| 0 <= i < j < s.len() ==> s[i] != s[j]
}

/// Walking one ray: whether the square (tr, tc) is reached by stepping from
/// (r, c) in direction (dr, dc) at most `fuel` more times. An empty square
/// is reached and the walk continues past it; the first occupant ends the
/// walk and its square is reached only when it holds the other color;
/// leaving the board ends the walk.
pub open spec fn ray_reach_from(
    v: BoardView,
    r: int,
    c: int,
    color: Color,
    dr: int,
    dc: int,
    fuel: nat,
    tr: int,
    tc: int,
) -> bool
    decreases fuel,
{
    if fuel == 0 {
        false
    } else {
        let nr = r + dr;
        let nc = c + dc;
        if !in_range(nr, nc) {
            false
        } else if v.empty_at(nr, nc) {
            (tr == nr && tc == nc) || ray_reach_from(
                v,
                nr,
                nc,
                color,
                dr,
                dc,
                (fuel - 1) as nat,
                tr,
                tc,
            )
        } else {
            tr == nr && tc == nc && v.at(nr, nc).color != color
        }
    }
}

/// The full ray from a square: at most the seven steps that fit on the
/// board.
pub open spec fn spec_ray(
    v: BoardView,
    from: Coordinate,
    color: Color,
    dr: int,
    dc: int,
    to: Coordinate,
) -> bool {
    ray_reach_from(
        v,
        from.row as int,
        from.col as int,
        color,
        dr,
        dc,
        7,
        to.row as int,
        to.col as int,
    )
}

/// Destinations of a bishop-wise mover: the four diagonal rays.
pub open spec fn spec_diag_dest(v: BoardView, from: Coordinate, color: Color, to: Coordinate) -> bool {
    ||| spec_ray(v, from, color, 1, -1, to)
    ||| spec_ray(v, from, color, -1, -1, to)
    ||| spec_ray(v, from, color, 1, 1, to)
    ||| spec_ray(v, from, color, -1, 1, to)
}

/// Destinations of a rook-wise mover: the four orthogonal rays.
pub open spec fn spec_linear_dest(v: BoardView, from: Coordinate, color: Color, to: Coordinate) -> bool {
    ||| spec_ray(v, from, color, 1, 0, to)
    ||| spec_ray(v, from, color, -1, 0, to)
    ||| spec_ray(v, from, color, 0, -1, to)
    ||| spec_ray(v, from, color, 0, 1, to)
}

/// Every square a ray reaches lies on the board, strictly on the
/// direction's side of the origin, and on the ray's own line.
pub proof fn lemma_ray_shape(
    v: BoardView,
    r: int,
    c: int,
    color: Color,
    dr: int,
    dc: int,
    fuel: nat,
    tr: int,
    tc: int,
)
    requires
        ray_reach_from(v, r, c, color, dr, dc, fuel, tr, tc),
    ensures
        in_range(tr, tc),
        dr == 1 ==> tr > r,
        dr == -1 ==> tr < r,
        dr == 0 ==> tr == r,
        dc == 1 ==> tc > c,
        dc == -1 ==> tc < c,
        dc == 0 ==> tc == c,
        dr == 1 && dc == 1 ==> tr - r == tc - c,
        dr == 1 && dc == -1 ==> tr - r == c - tc,
        dr == -1 && dc == 1 ==> r - tr == tc - c,
        dr == -1 && dc == -1 ==> r - tr == c - tc,
    decreases fuel,
{
    if fuel > 0 {
        let nr = r + dr;
        let nc = c + dc;
        if in_range(nr, nc) && v.empty_at(nr, nc) && !(tr == nr && tc == nc) {
            lemma_ray_shape(v, nr, nc, color, dr, dc, (fuel - 1) as nat, tr, tc);
        }
    }
}

/// `after` holds exactly the members of `before` together with the squares
/// of one ray.
pub open spec fn extends_with_ray(
    v: BoardView,
    from: Coordinate,
    color: Color,
    dr: int,
    dc: int,
    before: Seq<Coordinate>,
    after: Seq<Coordinate>,
) -> bool {
    forall|co: Coordinate|
        #[trigger] after.contains(co) <==> (before.contains(co) || spec_ray(
            v,
            from,
            color,
            dr,
            dc,
            co,
        ))
}

/// Membership in a concatenation is membership in either part.
pub broadcast proof fn lemma_contains_add(a: Seq<Coordinate>, b: Seq<Coordinate>, x: Coordinate)
    ensures
        #[trigger] (a + b).contains(x) <==> a.contains(x) || b.contains(x),
{
    if (a + b).contains(x) {
        let i = choose|i: int| 0 <= i < (a + b).len() && (a + b)[i] == x;
        if i < a.len() {
            assert(a[i] == x);
        } else {
            assert(b[i - a.len()] == x);
        }
    }
    if a.contains(x) {
        let i = choose|i: int| 0 <= i < a.len() && a[i] == x;
        assert((a + b)[i] == x);
    }
    if b.contains(x) {
        let i = choose|i: int| 0 <= i < b.len() && b[i] == x;
        assert((a + b)[a.len() + i] == x);
    }
}

/// A square a stepping piece may move onto: on the board and not occupied
/// by a friend.
pub open spec fn spec_step_ok(v: BoardView, color: Color, r: int, c: int) -> bool {
    in_range(r, c) && (v.empty_at(r, c) || v.at(r, c).color != color)
}

/// A king step: one square in any of the eight directions, onto a
/// non-friendly square.
pub open spec fn spec_king_dest(v: BoardView, color: Color, from: Coordinate, to: Coordinate) -> bool {
    let dr = to.row as int - from.row as int;
    let dc = to.col as int - from.col as int;
    -1 <= dr <= 1 && -1 <= dc <= 1 && !(dr == 0 && dc == 0) && spec_step_ok(
        v,
        color,
        to.row as int,
        to.col as int,
    )
}

/// A knight jump: an L-shaped offset onto a non-friendly square.
pub open spec fn spec_knight_dest(v: BoardView, color: Color, from: Coordinate, to: Coordinate) -> bool {
    let dr = to.row as int - from.row as int;
    let dc = to.col as int - from.col as int;
    (((dr == 1 || dr == -1) && (dc == 2 || dc == -2)) || ((dr == 2 || dr == -2) && (dc == 1 || dc
        == -1))) && spec_step_ok(v, color, to.row as int, to.col as int)
}

/// A pawn destination: a single step forward onto an empty square; a double
/// step forward from the home rank through two empty squares; a diagonal
/// capture of an enemy piece; or the en-passant diagonal, generated when
/// the marker names the square right beside the pawn and an enemy pawn
/// stands there.
pub open spec fn spec_pawn_dest(v: BoardView, from: Coordinate, to: Coordinate) -> bool {
    let p = v.at(from.row as int, from.col as int);
    let fr = from.row as int;
    let fc = from.col as int;
    let tr = to.row as int;
    let tc = to.col as int;
    let dir: int = if p.color is White { -1 } else { 1 };
    let home: int = if p.color is White { 6 } else { 1 };
    coord_in_range(to) && {
        ||| (tc == fc && tr == fr + dir && v.empty_at(tr, tc))
        ||| (fr == home && tc == fc && tr == fr + 2 * dir && v.empty_at(fr + dir, fc) && v.empty_at(
            tr,
            tc,
        ))
        ||| (tr == fr + dir && (tc == fc - 1 || tc == fc + 1) && !v.empty_at(tr, tc) && v.at(
            tr,
            tc,
        ).color != p.color)
        ||| (v.ep == Some(Coordinate { row: from.row, col: to.col }) && (tc == fc - 1 || tc == fc
            + 1) && tr == fr + dir && v.at(fr, tc).breed is Pawn && v.at(fr, tc).color != p.color
            && (v.empty_at(tr, tc) || v.at(tr, tc).color != p.color))
    }
}

/// The pseudo-legal destinations of the occupant of `from`: its movement
/// pattern applied to the position, with no king-safety filtering. An empty
/// square has none.
pub open spec fn spec_pseudo_dest(v: BoardView, from: Coordinate, to: Coordinate) -> bool {
    let p = v.at(from.row as int, from.col as int);
    match p.breed {
        Pieces::King => spec_king_dest(v, p.color, from, to),
        Pieces::Queen => spec_diag_dest(v, from, p.color, to) || spec_linear_dest(
            v,
            from,
            p.color,
            to,
        ),
        Pieces::Rook => spec_linear_dest(v, from, p.color, to),
        Pieces::Bishop => spec_diag_dest(v, from, p.color, to),
        Pieces::Knight => spec_knight_dest(v, p.color, from, to),
        Pieces::Pawn => spec_pawn_dest(v, from, to),
        Pieces::Empty => false,
    }
}

impl Board {
    /// Walks one ray outward from (row, col) and appends every reached
    /// square to `result`.
    fn cast_ray(&self, row: i8, col: i8, color: Color, dr: i8, dc: i8, result: &mut Vec<Coordinate>)
        requires
            self@.wf(),
            in_range(row as int, col as int),
            -1 <= dr <= 1,
            -1 <= dc <= 1,
            !(dr == 0 && dc == 0),
            nodup(old(result)@),
            forall|co: Coordinate|
                old(result)@.contains(co) ==> !spec_ray(
                    self@,
                    (Coordinate { row, col }),
                    color,
                    dr as int,
                    dc as int,
                    co,
                ),
        ensures
            nodup(final(result)@),
            extends_with_ray(
                self@,
                (Coordinate { row, col }),
                color,
                dr as int,
                dc as int,
                old(result)@,
                final(result)@,
            ),
    {
        let ghost start = Coordinate { row, col };
        let mut r: i8 = row;
        let mut c: i8 = col;
        let mut fuel: u8 = 7;
        while fuel > 0
            invariant
                self@.wf(),
                start == (Coordinate { row, col }),
                in_range(r as int, c as int),
                -1 <= dr <= 1,
                -1 <= dc <= 1,
                !(dr == 0 && dc == 0),
                fuel <= 7,
                nodup(result@),
                forall|co: Coordinate| #[trigger]
                    result@.contains(co) ==> old(result)@.contains(co) || (spec_ray(
                        self@,
                        start,
                        color,
                        dr as int,
                        dc as int,
                        co,
                    ) && !ray_reach_from(
                        self@,
                        r as int,
                        c as int,
                        color,
                        dr as int,
                        dc as int,
                        fuel as nat,
                        co.row as int,
                        co.col as int,
                    )),
                forall|co: Coordinate|
                    old(result)@.contains(co) ==> #[trigger] result@.contains(co),
                forall|co: Coordinate| #[trigger]
                    old(result)@.contains(co) ==> !spec_ray(
                        self@,
                        start,
                        color,
                        dr as int,
                        dc as int,
                        co,
                    ),
                forall|co: Coordinate|
                    #![trigger spec_ray(self@, start, color, dr as int, dc as int, co)]
                    (spec_ray(self@, start, color, dr as int, dc as int, co) && !ray_reach_from(
                        self@,
                        r as int,
                        c as int,
                        color,
                        dr as int,
                        dc as int,
                        fuel as nat,
                        co.row as int,
                        co.col as int,
                    ) ==> result@.contains(co)),
                forall|co: Coordinate| #[trigger]
                    ray_reach_from(
                        self@,
                        r as int,
                        c as int,
                        color,
                        dr as int,
                        dc as int,
                        fuel as nat,
                        co.row as int,
                        co.col as int,
                    ) ==> spec_ray(self@, start, color, dr as int, dc as int, co),
            decreases fuel,
        {
            let nr: i8 = r + dr;
            let nc: i8 = c + dc;
            if nr < 0 || nr > 7 || nc < 0 || nc > 7 {
                proof {
                    assert forall|x: Coordinate|
                        !ray_reach_from(
                            self@,
                            r as int,
                            c as int,
                            color,
                            dr as int,
                            dc as int,
                            fuel as nat,
                            x.row as int,
                            x.col as int,
                        ) by {}
                    assert(extends_with_ray(
                        self@,
                        start,
                        color,
                        dr as int,
                        dc as int,
                        old(result)@,
                        result@,
                    ));
                }
                return ;
            }
            let p: Piece = self.board[(nr as usize) * 8 + (nc as usize)];
            let co = Coordinate { row: nr, col: nc };
            if p.breed == Pieces::Empty {
                proof {
                    assert(ray_reach_from(
                        self@,
                        r as int,
                        c as int,
                        color,
                        dr as int,
                        dc as int,
                        fuel as nat,
                        co.row as int,
                        co.col as int,
                    ));
                    assert forall|x: Coordinate|
                        #![trigger ray_reach_from(self@, nr as int, nc as int, color, dr as int, dc as int, (fuel - 1) as nat, x.row as int, x.col as int)]
                        ray_reach_from(
                            self@,
                            nr as int,
                            nc as int,
                            color,
                            dr as int,
                            dc as int,
                            (fuel - 1) as nat,
                            x.row as int,
                            x.col as int,
                        ) implies ray_reach_from(
                        self@,
                        r as int,
                        c as int,
                        color,
                        dr as int,
                        dc as int,
                        fuel as nat,
                        x.row as int,
                        x.col as int,
                    ) by {}
                    if ray_reach_from(
                        self@,
                        nr as int,
                        nc as int,
                        color,
                        dr as int,
                        dc as int,
                        (fuel - 1) as nat,
                        co.row as int,
                        co.col as int,
                    ) {
                        lemma_ray_shape(
                            self@,
                            nr as int,
                            nc as int,
                            color,
                            dr as int,
                            dc as int,
                            (fuel - 1) as nat,
                            co.row as int,
                            co.col as int,
                        );
                    }
                    assert(!ray_reach_from(
                        self@,
                        nr as int,
                        nc as int,
                        color,
                        dr as int,
                        dc as int,
                        (fuel - 1) as nat,
                        co.row as int,
                        co.col as int,
                    ));
                    assert(!result@.contains(co));
                }
                result.push(co);
                r = nr;
                c = nc;
                fuel = fuel - 1;
            } else if p.color != color {
                proof {
                    assert(ray_reach_from(
                        self@,
                        r as int,
                        c as int,
                        color,
                        dr as int,
                        dc as int,
                        fuel as nat,
                        co.row as int,
                        co.col as int,
                    ));
                    assert forall|x: Coordinate|
                        ray_reach_from(
                            self@,
                            r as int,
                            c as int,
                            color,
                            dr as int,
                            dc as int,
                            fuel as nat,
                            x.row as int,
                            x.col as int,
                        ) implies x == co by {}
                    assert(!result@.contains(co));
                }
                result.push(co);
                proof {
                    assert(extends_with_ray(
                        self@,
                        start,
                        color,
                        dr as int,
                        dc as int,
                        old(result)@,
                        result@,
                    ));
                }
                return ;
            } else {
                proof {
                    assert forall|x: Coordinate|
                        !ray_reach_from(
                            self@,
                            r as int,
                            c as int,
                            color,
                            dr as int,
                            dc as int,
                            fuel as nat,
                            x.row as int,
                            x.col as int,
                        ) by {}
                    assert(extends_with_ray(
                        self@,
                        start,
                        color,
                        dr as int,
                        dc as int,
                        old(result)@,
                        result@,
                    ));
                }
                return ;
            }
        }
        proof {
            assert(extends_with_ray(
                self@,
                start,
                color,
                dr as int,
                dc as int,
                old(result)@,
                result@,
            ));
        }
    }

    /// All diagonal sliding destinations from (row, col) for a mover of the
    /// given color: each of the four diagonal rays, walked until it leaves
    /// the board or meets an occupant, a capture square included.
    pub fn diagonal_moves(&self, row: i8, col: i8, color: Color) -> (result: Vec<Coordinate>)
        requires
            self@.wf(),
            in_range(row as int, col as int),
        ensures
            nodup(result@),
            forall|co: Coordinate|
                result@.contains(co) <==> spec_diag_dest(
                    self@,
                    (Coordinate { row, col }),
                    color,
                    co,
                ),
    {
        let ghost start = Coordinate { row, col };
        let mut result: Vec<Coordinate> = Vec::new();
        self.cast_ray(row, col, color, 1, -1, &mut result);
        proof {
            assert forall|co: Coordinate| result@.contains(co) implies !spec_ray(
                self@,
                start,
                color,
                -1,
                -1,
                co,
            ) by {
                if spec_ray(self@, start, color, -1, -1, co) {
                    lemma_ray_shape(
                        self@,
                        row as int,
                        col as int,
                        color,
                        -1,
                        -1,
                        7,
                        co.row as int,
                        co.col as int,
                    );
                    lemma_ray_shape(
                        self@,
                        row as int,
                        col as int,
                        color,
                        1,
                        -1,
                        7,
                        co.row as int,
                        co.col as int,
                    );
                }
            }
        }
        self.cast_ray(row, col, color, -1, -1, &mut result);
        proof {
            assert forall|co: Coordinate| result@.contains(co) implies !spec_ray(
                self@,
                start,
                color,
                1,
                1,
                co,
            ) by {
                if spec_ray(self@, start, color, 1, 1, co) {
                    lemma_ray_shape(
                        self@,
                        row as int,
                        col as int,
                        color,
                        1,
                        1,
                        7,
                        co.row as int,
                        co.col as int,
                    );
                    if spec_ray(self@, start, color, 1, -1, co) {
                        lemma_ray_shape(
                            self@,
                            row as int,
                            col as int,
                            color,
                            1,
                            -1,
                            7,
                            co.row as int,
                            co.col as int,
                        );
                    }
                    if spec_ray(self@, start, color, -1, -1, co) {
                        lemma_ray_shape(
                            self@,
                            row as int,
                            col as int,
                            color,
                            -1,
                            -1,
                            7,
                            co.row as int,
                            co.col as int,
                        );
                    }
                }
            }
        }
        self.cast_ray(row, col, color, 1, 1, &mut result);
        proof {
            assert forall|co: Coordinate| result@.contains(co) implies !spec_ray(
                self@,
                start,
                color,
                -1,
                1,
                co,
            ) by {
                if spec_ray(self@, start, color, -1, 1, co) {
                    lemma_ray_shape(
                        self@,
                        row as int,
                        col as int,
                        color,
                        -1,
                        1,
                        7,
                        co.row as int,
                        co.col as int,
                    );
                    if spec_ray(self@, start, color, 1, -1, co) {
                        lemma_ray_shape(
                            self@,
                            row as int,
                            col as int,
                            color,
                            1,
                            -1,
                            7,
                            co.row as int,
                            co.col as int,
                        );
                    }
                    if spec_ray(self@, start, color, -1, -1, co) {
                        lemma_ray_shape(
                            self@,
                            row as int,
                            col as int,
                            color,
                            -1,
                            -1,
                            7,
                            co.row as int,
                            co.col as int,
                        );
                    }
                    if spec_ray(self@, start, color, 1, 1, co) {
                        lemma_ray_shape(
                            self@,
                            row as int,
                            col as int,
                            color,
                            1,
                            1,
                            7,
                            co.row as int,
                            co.col as int,
                        );
                    }
                }
            }
        }
        self.cast_ray(row, col, color, -1, 1, &mut result);
        result
    }

    /// All orthogonal sliding destinations from (row, col) for a mover of
    /// the given color, by the same walking rule over the four orthogonal
    /// rays.
    pub fn linear_moves(&self, row: i8, col: i8, color: Color) -> (result: Vec<Coordinate>)
        requires
            self@.wf(),
            in_range(row as int, col as int),
        ensures
            nodup(result@),
            forall|co: Coordinate|
                result@.contains(co) <==> spec_linear_dest(
                    self@,
                    (Coordinate { row, col }),
                    color,
                    co,
                ),
    {
        let ghost start = Coordinate { row, col };
        let mut result: Vec<Coordinate> = Vec::new();
        self.cast_ray(row, col, color, 1, 0, &mut result);
        proof {
            assert forall|co: Coordinate| result@.contains(co) implies !spec_ray(
                self@,
                start,
                color,
                -1,
                0,
                co,
            ) by {
                if spec_ray(self@, start, color, -1, 0, co) {
                    lemma_ray_shape(
                        self@,
                        row as int,
                        col as int,
                        color,
                        -1,
                        0,
                        7,
                        co.row as int,
                        co.col as int,
                    );
                    if spec_ray(self@, start, color, 1, 0, co) {
                        lemma_ray_shape(
                            self@,
                            row as int,
                            col as int,
                            color,
                            1,
                            0,
                            7,
                            co.row as int,
                            co.col as int,
                        );
                    }
                }
            }
        }
        self.cast_ray(row, col, color, -1, 0, &mut result);
        proof {
            assert forall|co: Coordinate| result@.contains(co) implies !spec_ray(
                self@,
                start,
                color,
                0,
                -1,
                co,
            ) by {
                if spec_ray(self@, start, color, 0, -1, co) {
                    lemma_ray_shape(
                        self@,
                        row as int,
                        col as int,
                        color,
                        0,
                        -1,
                        7,
                        co.row as int,
                        co.col as int,
                    );
                    if spec_ray(self@, start, color, 1, 0, co) {
                        lemma_ray_shape(
                            self@,
                            row as int,
                            col as int,
                            color,
                            1,
                            0,
                            7,
                            co.row as int,
                            co.col as int,
                        );
                    }
                    if spec_ray(self@, start, color, -1, 0, co) {
                        lemma_ray_shape(
                            self@,
                            row as int,
                            col as int,
                            color,
                            -1,
                            0,
                            7,
                            co.row as int,
                            co.col as int,
                        );
                    }
                }
            }
        }
        self.cast_ray(row, col, color, 0, -1, &mut result);
        proof {
            assert forall|co: Coordinate| result@.contains(co) implies !spec_ray(
                self@,
                start,
                color,
                0,
                1,
                co,
            ) by {
                if spec_ray(self@, start, color, 0, 1, co) {
                    lemma_ray_shape(
                        self@,
                        row as int,
                        col as int,
                        color,
                        0,
                        1,
                        7,
                        co.row as int,
                        co.col as int,
                    );
                    if spec_ray(self@, start, color, 1, 0, co) {
                        lemma_ray_shape(
                            self@,
                            row as int,
                            col as int,
                            color,
                            1,
                            0,
                            7,
                            co.row as int,
                            co.col as int,
                        );
                    }
                    if spec_ray(self@, start, color, -1, 0, co) {
                        lemma_ray_shape(
                            self@,
                            row as int,
                            col as int,
                            color,
                            -1,
                            0,
                            7,
                            co.row as int,
                            co.col as int,
                        );
                    }
                    if spec_ray(self@, start, color, 0, -1, co) {
                        lemma_ray_shape(
                            self@,
                            row as int,
                            col as int,
                            color,
                            0,
                            -1,
                            7,
                            co.row as int,
                            co.col as int,
                        );
                    }
                }
            }
        }
        self.cast_ray(row, col, color, 0, 1, &mut result);
        result
    }

    /// Appends the square (r, c) when it lies on the board and holds no
    /// friend of `color`.
    fn try_push_step(&self, color: Color, r: i8, c: i8, result: &mut Vec<Coordinate>)
        requires
            self@.wf(),
            -2 <= r <= 9,
            -2 <= c <= 9,
            nodup(old(result)@),
            !old(result)@.contains((Coordinate { row: r, col: c })),
        ensures
            nodup(final(result)@),
            forall|co: Coordinate|
                #[trigger] final(result)@.contains(co) <==> (old(result)@.contains(co) || (co
                    == (Coordinate { row: r, col: c }) && spec_step_ok(
                    self@,
                    color,
                    r as int,
                    c as int,
                ))),
    {
        if r >= 0 && r <= 7 && c >= 0 && c <= 7 {
            let p: Piece = self.board[(r as usize) * 8 + (c as usize)];
            if p.breed == Pieces::Empty || p.color != color {
                result.push(Coordinate { row: r, col: c });
            }
        }
    }

    /// The eight single steps of a king, with off-board and friendly
    /// squares dropped.
    fn king_raw_moves(&self, row: i8, col: i8, color: Color) -> (result: Vec<Coordinate>)
        requires
            self@.wf(),
            in_range(row as int, col as int),
        ensures
            nodup(result@),
            forall|co: Coordinate|
                #[trigger] result@.contains(co) <==> spec_king_dest(
                    self@,
                    color,
                    (Coordinate { row, col }),
                    co,
                ),
    {
        let mut result: Vec<Coordinate> = Vec::new();
        self.try_push_step(color, row - 1, col + 1, &mut result);
        self.try_push_step(color, row, col + 1, &mut result);
        self.try_push_step(color, row + 1, col + 1, &mut result);
        self.try_push_step(color, row - 1, col, &mut result);
        self.try_push_step(color, row + 1, col, &mut result);
        self.try_push_step(color, row - 1, col - 1, &mut result);
        self.try_push_step(color, row, col - 1, &mut result);
        self.try_push_step(color, row + 1, col - 1, &mut result);
        result
    }

    /// The eight jumps of a knight, with off-board and friendly squares
    /// dropped.
    fn knight_raw_moves(&self, row: i8, col: i8, color: Color) -> (result: Vec<Coordinate>)
        requires
            self@.wf(),
            in_range(row as int, col as int),
        ensures
            nodup(result@),
            forall|co: Coordinate|
                #[trigger] result@.contains(co) <==> spec_knight_dest(
                    self@,
                    color,
                    (Coordinate { row, col }),
                    co,
                ),
    {
        let mut result: Vec<Coordinate> = Vec::new();
        self.try_push_step(color, row - 2, col - 1, &mut result);
        self.try_push_step(color, row - 2, col + 1, &mut result);
        self.try_push_step(color, row - 1, col - 2, &mut result);
        self.try_push_step(color, row - 1, col + 2, &mut result);
        self.try_push_step(color, row + 1, col - 2, &mut result);
        self.try_push_step(color, row + 1, col + 2, &mut result);
        self.try_push_step(color, row + 2, col - 1, &mut result);
        self.try_push_step(color, row + 2, col + 1, &mut result);
        result
    }

    /// A pawn's raw destinations: the forward single step, the double step
    /// from the home rank, the diagonal captures, and the en-passant
    /// diagonal beside the marker.
    #[verifier::rlimit(100)]
    fn pawn_raw_moves(&self, row: i8, col: i8) -> (result: Vec<Coordinate>)
        requires
            self@.wf(),
            in_range(row as int, col as int),
        ensures
            nodup(result@),
            forall|co: Coordinate|
                #[trigger] result@.contains(co) <==> spec_pawn_dest(
                    self@,
                    (Coordinate { row, col }),
                    co,
                ),
    {
        let ghost from = Coordinate { row, col };
        let piece: Piece = self.board[(row as usize) * 8 + (col as usize)];
        let mut result: Vec<Coordinate> = Vec::new();
        let dir: i8 = if piece.color == Color::White {
            -1
        } else {
            1
        };
        let home: i8 = if piece.color == Color::White {
            6
        } else {
            1
        };
        let fwd: i8 = row + dir;
        if 0 <= fwd && fwd <= 7 {
            if self.board[(fwd as usize) * 8 + (col as usize)].breed == Pieces::Empty {
                result.push(Coordinate { row: fwd, col });
            }
        }
        if row == home {
            let fwd2: i8 = row + 2 * dir;
            if self.board[(fwd as usize) * 8 + (col as usize)].breed == Pieces::Empty
                && self.board[(fwd2 as usize) * 8 + (col as usize)].breed
                == Pieces::Empty {
                result.push(Coordinate { row: fwd2, col });
            }
        }
        if 0 <= fwd && fwd <= 7 && col >= 1 {
            let dp: Piece = self.board[(fwd as usize) * 8 + ((col - 1) as usize)];
            if dp.breed != Pieces::Empty && dp.color != piece.color {
                result.push(Coordinate { row: fwd, col: col - 1 });
            }
        }
        if 0 <= fwd && fwd <= 7 && col <= 6 {
            let dp: Piece = self.board[(fwd as usize) * 8 + ((col + 1) as usize)];
            if dp.breed != Pieces::Empty && dp.color != piece.color {
                result.push(Coordinate { row: fwd, col: col + 1 });
            }
        }
        match self.last_2_moves_pawn {
            Some(marker) => {
                if 0 <= fwd && fwd <= 7 && col >= 1 && marker.row == row && marker.col
                    == col - 1 {
                    let ap: Piece = self.board[(row as usize) * 8 + ((col - 1) as usize)];
                    let dp: Piece = self.board[(fwd as usize) * 8 + ((col - 1) as usize)];
                    if ap.breed == Pieces::Pawn && ap.color != piece.color && dp.breed
                        == Pieces::Empty {
                        result.push(Coordinate { row: fwd, col: col - 1 });
                    }
                }
                if 0 <= fwd && fwd <= 7 && col <= 6 && marker.row == row && marker.col
                    == col + 1 {
                    let ap: Piece = self.board[(row as usize) * 8 + ((col + 1) as usize)];
                    let dp: Piece = self.board[(fwd as usize) * 8 + ((col + 1) as usize)];
                    if ap.breed == Pieces::Pawn && ap.color != piece.color && dp.breed
                        == Pieces::Empty {
                        result.push(Coordinate { row: fwd, col: col + 1 });
                    }
                }
            },
            None => {},
        }
        proof {
            assert forall|co: Coordinate| result@.contains(co) implies spec_pawn_dest(
                self@,
                from,
                co,
            ) by {}
            assert forall|co: Coordinate| spec_pawn_dest(self@, from, co)
                implies result@.contains(co) by {}
        }
        result
    }

    /// The raw pseudo-legal destination list of the occupant of (row, col):
    /// the per-kind movement rules applied to the position, in-board and
    /// friendly-fire filtering included, duplicates removed, and no
    /// king-safety filtering. This is the attack set one square contributes
    /// to check testing.
    pub fn raw_moves(&self, row: i8, col: i8) -> (result: Vec<Coordinate>)
        requires
            self@.wf(),
            in_range(row as int, col as int),
        ensures
            nodup(result@),
            forall|co: Coordinate|
                #[trigger] result@.contains(co) <==> spec_pseudo_dest(
                    self@,
                    (Coordinate { row, col }),
                    co,
                ),
            forall|co: Coordinate| #[trigger] result@.contains(co) ==> coord_in_range(co),
    {
        let ghost from = Coordinate { row, col };
        let piece: Piece = self.board[(row as usize) * 8 + (col as usize)];
        match piece.breed {
            Pieces::King => self.king_raw_moves(row, col, piece.color),
            Pieces::Knight => self.knight_raw_moves(row, col, piece.color),
            Pieces::Queen => {
                let mut result: Vec<Coordinate> = self.diagonal_moves(row, col, piece.color);
                let mut lin: Vec<Coordinate> = self.linear_moves(row, col, piece.color);
                proof {
                    broadcast use lemma_contains_add;

                    assert forall|co: Coordinate| result@.contains(co) implies !lin@.contains(
                        co,
                    ) by {
                        if lin@.contains(co) {
                            ray_cases_shape(self@, from, piece.color, co);
                        }
                    }
                    assert forall|i: int, j: int|
                        0 <= i < j < (result@ + lin@).len() implies (result@ + lin@)[i] != (result@
                        + lin@)[j] by {
                        if i < result@.len() && j >= result@.len() {
                            assert(result@.contains((result@ + lin@)[i]));
                            assert(lin@.contains((result@ + lin@)[j]));
                        }
                    }
                }
                result.append(&mut lin);
                proof {
                    assert forall|co: Coordinate| result@.contains(co) implies coord_in_range(
                        co,
                    ) by {
                        ray_cases_shape(self@, from, piece.color, co);
                    }
                }
                result
            },
            Pieces::Rook => {
                let result: Vec<Coordinate> = self.linear_moves(row, col, piece.color);
                proof {
                    assert forall|co: Coordinate| result@.contains(co) implies coord_in_range(
                        co,
                    ) by {
                        ray_cases_shape(self@, from, piece.color, co);
                    }
                }
                result
            },
            Pieces::Bishop => {
                let result: Vec<Coordinate> = self.diagonal_moves(row, col, piece.color);
                proof {
                    assert forall|co: Coordinate| result@.contains(co) implies coord_in_range(
                        co,
                    ) by {
                        ray_cases_shape(self@, from, piece.color, co);
                    }
                }
                result
            },
            Pieces::Pawn => self.pawn_raw_moves(row, col),
            Pieces::Empty => {
                let result: Vec<Coordinate> = Vec::new();
                proof {
                    assert(result@.len() == 0);
                }
                result
            },
        }
    }
}

/// Whether the piece registered at `from` in the attacking color's index
/// reaches `target` among its raw pseudo-legal destinations.
pub open spec fn spec_attacker_gives_check(
    v: BoardView,
    acolor: Color,
    from: Coordinate,
    target: Coordinate,
) -> bool {
    coord_in_range(from) && v.slots_of(acolor)[sq(from.row as int, from.col as int)] is Some
        && spec_pseudo_dest(v, from, target)
}

/// A color is in check when it has a king and some opposing piece reaches
/// the king's square in its raw (unfiltered) attack set. A color with no
/// king is never in check.
pub open spec fn spec_in_check(v: BoardView, color: Color) -> bool {
    match spec_king_coord(v, color) {
        None => false,
        Some(k) => exists|from: Coordinate|
            #[trigger] spec_attacker_gives_check(v, other_color(color), from, k),
    }
}

/// A candidate move is safe when the position after it leaves the mover's
/// color out of check.
pub open spec fn spec_move_safe(v: BoardView, from: Coordinate, to: Coordinate) -> bool {
    !spec_in_check(spec_apply(v, from, to), v.at(from.row as int, from.col as int).color)
}

/// A legal destination: pseudo-legal and safe for the mover's own king.
pub open spec fn spec_legal_dest(v: BoardView, from: Coordinate, to: Coordinate) -> bool {
    spec_pseudo_dest(v, from, to) && spec_move_safe(v, from, to)
}

/// The restricted checkmate condition: the color has a king and no piece of
/// the color has any legal destination. No separate confirmation that the
/// king is attacked is made, so a stalemate satisfies it too.
pub open spec fn spec_checkmate(v: BoardView, color: Color) -> bool {
    &&& spec_king_coord(v, color) is Some
    &&& forall|from: Coordinate, to: Coordinate|
        (coord_in_range(from) && v.slots_of(color)[sq(from.row as int, from.col as int)] is Some)
            ==> !#[trigger] spec_legal_dest(v, from, to)
}

/// An element-for-element copy of a vector of copyable values.
fn copy_vec<T: Copy>(v: &Vec<T>) -> (r: Vec<T>)
    ensures
        r@ == v@,
{
    let mut r: Vec<T> = Vec::new();
    let mut i: usize = 0;
    while i < v.len()
        invariant
            i <= v@.len(),
            r@ =~= v@.take(i as int),
        decreases v@.len() - i,
    {
        r.push(v[i]);
        proof {
            assert(r@ =~= v@.take(i as int + 1));
        }
        i += 1;
    }
    proof {
        assert(r@ =~= v@);
    }
    r
}

impl Board {
    /// An independent copy of the whole board state.
    fn clone_board(&self) -> (b: Board)
        ensures
            b@ == self@,
    {
        let b = Board {
            board: copy_vec(&self.board),
            turn: self.turn,
            castling_black_king_side: self.castling_black_king_side,
            castling_black_queen_side: self.castling_black_queen_side,
            castling_white_king_side: self.castling_white_king_side,
            castling_white_queen_side: self.castling_white_queen_side,
            white_pieces: copy_vec(&self.white_pieces),
            black_pieces: copy_vec(&self.black_pieces),
            last_2_moves_pawn: self.last_2_moves_pawn,
            halfmove_clock: self.halfmove_clock,
            fullmove_number: self.fullmove_number,
        };
        proof {
            assert(b@ =~= self@);
        }
        b
    }

    /// Whether `color`'s king is attacked: locates the king, then scans the
    /// opposing color's index and tests every registered square's raw
    /// attack set for the king's square. A color with no king is reported
    /// not in check.
    pub fn is_in_check(&self, color: Color) -> (r: bool)
        requires
            self@.wf(),
        ensures
            r == spec_in_check(self@, color),
    {
        let king_coord: Option<Coordinate> = self.get_king_coord(color);
        let k: Coordinate = match king_coord {
            None => {
                return false;
            },
            Some(k) => k,
        };
        let slots: &Vec<Option<Piece>> = if color == Color::White {
            &self.black_pieces
        } else {
            &self.white_pieces
        };
        let mut i: usize = 0;
        while i < 64
            invariant
                self@.wf(),
                i <= 64,
                slots@ == self@.slots_of(other_color(color)),
                slots@.len() == 64,
                Some(k) == spec_king_coord(self@, color),
                forall|from: Coordinate|
                    (coord_in_range(from) && sq(from.row as int, from.col as int) < i)
                        ==> !#[trigger] spec_attacker_gives_check(self@, other_color(color), from, k),
            decreases 64 - i,
        {
            let entry: Option<Piece> = slots[i];
            if entry.is_some() {
                let arow: i8 = (i / 8) as i8;
                let acol: i8 = (i % 8) as i8;
                let ghost from = Coordinate { row: arow, col: acol };
                proof {
                    assert(sq(from.row as int, from.col as int) == i);
                }
                let moves: Vec<Coordinate> = self.raw_moves(arow, acol);
                if coords_contain(&moves, k) {
                    proof {
                        let kk = spec_king_coord(self@, color)->0;
                        assert(kk == k);
                        assert(spec_attacker_gives_check(self@, other_color(color), from, kk));
                        assert(spec_in_check(self@, color));
                    }
                    return true;
                }
                proof {
                    assert forall|x: Coordinate|
                        coord_in_range(x) && sq(x.row as int, x.col as int) == i
                            implies !spec_attacker_gives_check(self@, other_color(color), x, k) by {
                        assert(x.row as int == i as int / 8 && x.col as int == i as int % 8);
                        assert(x == from);
                    }
                }
            }
            i += 1;
        }
        proof {
            assert forall|from: Coordinate|
                !spec_attacker_gives_check(self@, other_color(color), from, k) by {
                if coord_in_range(from) {
                    assert(sq(from.row as int, from.col as int) < 64);
                }
            }
        }
        false
    }

    /// Keeps the candidates that do not leave the mover's own king
    /// attacked: each candidate is tried on an independent scratch copy of
    /// the board and retained only when the resulting position is not in
    /// check for the occupant of `piece_coord`.
    pub fn filter_check_moves(&self, piece_coord: Coordinate, moves: Vec<Coordinate>) -> (result:
        Vec<Coordinate>)
        requires
            self@.wf(),
            coord_in_range(piece_coord),
            forall|i: int| 0 <= i < moves@.len() ==> coord_in_range(#[trigger] moves@[i]),
        ensures
            forall|co: Coordinate|
                #[trigger] result@.contains(co) <==> (moves@.contains(co) && spec_move_safe(
                    self@,
                    piece_coord,
                    co,
                )),
            nodup(moves@) ==> nodup(result@),
    {
        let piece: Piece = self.board[(piece_coord.row as usize) * 8 + (piece_coord.col as usize)];
        let mut result: Vec<Coordinate> = Vec::new();
        let mut i: usize = 0;
        while i < moves.len()
            invariant
                self@.wf(),
                coord_in_range(piece_coord),
                piece == self@.at(piece_coord.row as int, piece_coord.col as int),
                forall|j: int| 0 <= j < moves@.len() ==> coord_in_range(#[trigger] moves@[j]),
                i <= moves@.len(),
                forall|co: Coordinate|
                    #[trigger] result@.contains(co) <==> (moves@.take(i as int).contains(co)
                        && spec_move_safe(self@, piece_coord, co)),
                nodup(moves@) ==> nodup(result@),
            decreases moves@.len() - i,
        {
            let m: Coordinate = moves[i];
            let mut scratch: Board = self.clone_board();
            scratch.apply_move(piece_coord, m);
            let in_check: bool = scratch.is_in_check(piece.color);
            proof {
                assert(moves@.take(i as int + 1) =~= moves@.take(i as int).push(m));
                if nodup(moves@) && result@.contains(m) {
                    let j = choose|j: int|
                        0 <= j < i && moves@.take(i as int)[j] == m;
                    assert(moves@[j] == moves@[i as int]);
                }
            }
            if !in_check {
                result.push(m);
            }
            i += 1;
        }
        proof {
            assert(moves@.take(moves@.len() as int) =~= moves@);
        }
        result
    }

    /// The fully legal destination list for the occupant of (row, col): its
    /// raw pseudo-legal destinations with every candidate that would leave
    /// the mover's own king attacked removed.
    pub fn get_moves(&self, row: i8, col: i8) -> (result: Vec<Coordinate>)
        requires
            self@.wf(),
            in_range(row as int, col as int),
        ensures
            nodup(result@),
            forall|co: Coordinate|
                #[trigger] result@.contains(co) <==> spec_legal_dest(
                    self@,
                    (Coordinate { row, col }),
                    co,
                ),
    {
        let raw: Vec<Coordinate> = self.raw_moves(row, col);
        proof {
            assert forall|j: int| 0 <= j < raw@.len() implies coord_in_range(#[trigger] raw@[j]) by {
                assert(raw@.contains(raw@[j]));
            }
        }
        self.filter_check_moves(Coordinate { row, col }, raw)
    }

    /// The restricted checkmate test: reports true when the color has a
    /// king and every square registered in its index yields an empty legal
    /// destination list. A stalemate therefore also reports true, and a
    /// color with no king never does.
    pub fn is_in_checkmate(&mut self, color: Color) -> (r: bool)
        requires
            old(self)@.wf(),
        ensures
            *final(self) == *old(self),
            r == spec_checkmate(old(self)@, color),
    {
        let king_coord: Option<Coordinate> = self.get_king_coord(color);
        if king_coord.is_none() {
            return false;
        }
        let mut i: usize = 0;
        while i < 64
            invariant
                *self == *old(self),
                self@.wf(),
                i <= 64,
                forall|from: Coordinate, to: Coordinate|
                    (coord_in_range(from) && sq(from.row as int, from.col as int) < i && self@.slots_of(
                        color,
                    )[sq(from.row as int, from.col as int)] is Some) ==> !#[trigger] spec_legal_dest(
                        self@,
                        from,
                        to,
                    ),
            decreases 64 - i,
        {
            let entry: Option<Piece> = if color == Color::White {
                self.white_pieces[i]
            } else {
                self.black_pieces[i]
            };
            if entry.is_some() {
                let arow: i8 = (i / 8) as i8;
                let acol: i8 = (i % 8) as i8;
                let ghost from = Coordinate { row: arow, col: acol };
                proof {
                    assert(sq(from.row as int, from.col as int) == i);
                }
                let moves: Vec<Coordinate> = self.get_moves(arow, acol);
                if moves.len() != 0 {
                    proof {
                        assert(moves@.contains(moves@[0]));
                        assert(spec_legal_dest(self@, from, moves@[0]));
                    }
                    return false;
                }
                proof {
                    assert forall|x: Coordinate, to: Coordinate|
                        coord_in_range(x) && sq(x.row as int, x.col as int) == i
                            implies !spec_legal_dest(self@, x, to) by {
                        assert(x.row as int == i as int / 8 && x.col as int == i as int % 8);
                        assert(x == from);
                        assert(!moves@.contains(to));
                    }
                }
            }
            i += 1;
        }
        proof {
            assert forall|from: Coordinate, to: Coordinate|
                (coord_in_range(from) && self@.slots_of(color)[sq(
                    from.row as int,
                    from.col as int,
                )] is Some) implies !spec_legal_dest(self@, from, to) by {
                assert(sq(from.row as int, from.col as int) < 64);
            }
        }
        true
    }
}

/// Whether a destination list holds a given square.
fn coords_contain(v: &Vec<Coordinate>, x: Coordinate) -> (b: bool)
    ensures
        b == v@.contains(x),
{
    let mut i: usize = 0;
    while i < v.len()
        invariant
            i <= v@.len(),
            forall|j: int| 0 <= j < i ==> v@[j] != x,
        decreases v@.len() - i,
    {
        let c: Coordinate = v[i];
        if c == x {
            proof {
                assert(v@.contains(x));
            }
            return true;
        }
        i += 1;
    }
    false
}

/// A square on any of the eight rays lies on the board; invoked to compare
/// ray families.
pub proof fn ray_cases_shape(v: BoardView, from: Coordinate, color: Color, co: Coordinate)
    ensures
        spec_ray(v, from, color, 1, -1, co) ==> in_range(co.row as int, co.col as int) && co.row
            > from.row && (co.row - from.row) as int == (from.col - co.col) as int,
        spec_ray(v, from, color, -1, -1, co) ==> in_range(co.row as int, co.col as int) && co.row
            < from.row && (from.row - co.row) as int == (from.col - co.col) as int,
        spec_ray(v, from, color, 1, 1, co) ==> in_range(co.row as int, co.col as int) && co.row
            > from.row && (co.row - from.row) as int == (co.col - from.col) as int,
        spec_ray(v, from, color, -1, 1, co) ==> in_range(co.row as int, co.col as int) && co.row
            < from.row && (from.row - co.row) as int == (co.col - from.col) as int,
        spec_ray(v, from, color, 1, 0, co) ==> in_range(co.row as int, co.col as int) && co.row
            > from.row && co.col == from.col,
        spec_ray(v, from, color, -1, 0, co) ==> in_range(co.row as int, co.col as int) && co.row
            < from.row && co.col == from.col,
        spec_ray(v, from, color, 0, -1, co) ==> in_range(co.row as int, co.col as int) && co.row
            == from.row && co.col < from.col,
        spec_ray(v, from, color, 0, 1, co) ==> in_range(co.row as int, co.col as int) && co.row
            == from.row && co.col > from.col,
{
    if spec_ray(v, from, color, 1, -1, co) {
        lemma_ray_shape(v, from.row as int, from.col as int, color, 1, -1, 7, co.row as int, co.col as int);
    }
    if spec_ray(v, from, color, -1, -1, co) {
        lemma_ray_shape(v, from.row as int, from.col as int, color, -1, -1, 7, co.row as int, co.col as int);
    }
    if spec_ray(v, from, color, 1, 1, co) {
        lemma_ray_shape(v, from.row as int, from.col as int, color, 1, 1, 7, co.row as int, co.col as int);
    }
    if spec_ray(v, from, color, -1, 1, co) {
        lemma_ray_shape(v, from.row as int, from.col as int, color, -1, 1, 7, co.row as int, co.col as int);
    }
    if spec_ray(v, from, color, 1, 0, co) {
        lemma_ray_shape(v, from.row as int, from.col as int, color, 1, 0, 7, co.row as int, co.col as int);
    }
    if spec_ray(v, from, color, -1, 0, co) {
        lemma_ray_shape(v, from.row as int, from.col as int, color, -1, 0, 7, co.row as int, co.col as int);
    }
    if spec_ray(v, from, color, 0, -1, co) {
        lemma_ray_shape(v, from.row as int, from.col as int, color, 0, -1, 7, co.row as int, co.col as int);
    }
    if spec_ray(v, from, color, 0, 1, co) {
        lemma_ray_shape(v, from.row as int, from.col as int, color, 0, 1, 7, co.row as int, co.col as int);
    }
}

} // verus!
