//! The launcher's state and the logic run once per frame: handle the key
//! that was pressed, edit the query, refilter and re-sort the candidate
//! list, and lay the window's rows out.

use vstd::prelude::*;

use crate::cursor::Cursor;
use crate::cursor::VecCursor;
use crate::matching::clipped;
use crate::matching::filter_programs;
use crate::matching::lemma_sort_by_len_len;
use crate::matching::lemma_sort_by_len_ordered;
use crate::matching::lemma_sort_by_len_permutes;
use crate::matching::matching_candidates;
use crate::matching::ordered_by_len;
use crate::matching::sort_by_len;
use crate::matching::sort_programs;
use crate::position::Position;
use crate::views::lemma_views_of_push;
use crate::views::lemma_views_of_take;
use crate::views::views_of;
use vstd::arithmetic::div_mod::lemma_div_is_ordered;
use vstd::arithmetic::div_mod::lemma_div_multiples_vanish;
use vstd::arithmetic::div_mod::lemma_fundamental_div_mod;
use vstd::arithmetic::div_mod::lemma_mod_bound;
use vstd::arithmetic::mul::lemma_mul_inequality;
use vstd::arithmetic::mul::lemma_mul_strict_inequality;

verus! {

/// Distance in pixels between the window's left edge and drawn text.
pub const TEXT_PADDING: i32 = 10;

/// A key event that the frame loop reacts to.
#[derive(Clone, Copy, Debug, PartialEq, Eq, Structural)]
pub enum KeyInput {
    Backspace,
    Enter,
    Down,
    Up,
    Escape,
    Other,
}

/// What the frame loop must do after a key was handled.
#[derive(Debug)]
pub enum Action {
    /// Keep running.
    Idle,
    /// Hand the held name to the launcher shell; stop when the spawn worked.
    Spawn(Vec<char>),
    /// Close the window.
    Stop,
}

/// One row of the candidate list as it is drawn: the name, where it starts,
/// and whether it is the highlighted one.
#[derive(Debug)]
pub struct Row {
    pub text: Vec<char>,
    pub at: Position,
    pub selected: bool,
}

/// The fixed parts of the window: the search bar strip across the top and
/// where the query text sits on it.
#[derive(Debug)]
pub struct Chrome {
    pub bar_width: i32,
    pub bar_height: i32,
    pub query_at: Position,
}

/// The launcher's whole state between frames.
pub struct App {
    width: i32,
    height: i32,
    font_size: i32,
    all_programs: Vec<Vec<char>>,
    programs: VecCursor<Vec<char>>,
    max: usize,
    search_bar: Vec<char>,
}

impl App {
    /// Every program the machine offers, in discovery order.
    pub closed spec fn all_view(&self) -> Seq<Seq<char>> {
        views_of(self.all_programs@)
    }

    /// The candidates on display, top to bottom.
    pub closed spec fn shown(&self) -> Seq<Seq<char>> {
        views_of(self.programs.items())
    }

    /// The index of the highlighted candidate.
    pub closed spec fn selected_at(&self) -> int {
        self.programs.position()
    }

    /// The query as typed so far.
    pub closed spec fn query_view(&self) -> Seq<char> {
        self.search_bar@
    }

    pub closed spec fn width_px(&self) -> int {
        self.width as int
    }

    pub closed spec fn height_px(&self) -> int {
        self.height as int
    }

    pub closed spec fn font_px(&self) -> int {
        self.font_size as int
    }

    /// How many candidates fit under the search bar.
    pub closed spec fn max_shown(&self) -> int {
        self.max as int
    }

    /// The window leaves room for the search bar, the row count is what the
    /// geometry admits, the display never exceeds it, and the cursor is
    /// inside the display.
    pub closed spec fn inv(&self) -> bool {
        &&& self.programs.inv()
        &&& 1 <= self.font_size
        &&& 2 * self.font_size <= self.height
        &&& self.max as int == self.height as int / self.font_size as int - 2
        &&& self.programs.items().len() <= self.max as int
    }

    /// A launcher showing the first programs of the list, the cursor on the
    /// top row and the query empty.
    pub fn new(width: i32, height: i32, font_size: i32, programs: Vec<Vec<char>>) -> (r: App)
        requires
            1 <= font_size,
            2 * font_size <= height,
        ensures
            r.inv(),
            r.width_px() == width,
            r.height_px() == height,
            r.font_px() == font_size,
            r.max_shown() == height as int / font_size as int - 2,
            r.all_view() == views_of(programs@),
            r.shown() == clipped(views_of(programs@), r.max_shown()),
            r.selected_at() == 0,
            r.query_view() == Seq::<char>::empty(),
    {
        let h: usize = height as usize;
        let f: usize = font_size as usize;
        let q: usize = h / f;
        proof {
            lemma_div_is_ordered(2 * font_size as int, height as int, font_size as int);
            lemma_div_multiples_vanish(2, font_size as int);
            assert(q >= 2);
        }
        let max: usize = q - 2;

        let ghost va: Seq<Seq<char>> = views_of(programs@);
        let mut first: Vec<Vec<char>> = Vec::new();
        let mut i: usize = 0;
        proof {
            assert(views_of(first@) =~= va.take(0));
        }
        while i < programs.len() && i < max
            invariant
                i <= va.len(),
                i <= max,
                va == views_of(programs@),
                views_of(first@) == va.take(i as int),
            decreases va.len() - i,
        {
            let x = programs[i].clone();
            proof {
                assert(x@ =~= va[i as int]);
            }
            let ghost first_before: Seq<Vec<char>> = first@;
            first.push(x);
            proof {
                lemma_views_of_push(first_before, first@.last());
                assert(va.take(i as int).push(va[i as int]) =~= va.take(i as int + 1));
            }
            i += 1;
        }
        proof {
            if va.len() <= max as int {
                assert(va.take(va.len() as int) =~= va);
            }
            assert(views_of(first@) == clipped(va, max as int));
        }

        App {
            width,
            height,
            font_size,
            all_programs: programs,
            programs: VecCursor::new(first),
            max,
            search_bar: Vec::new(),
        }
    }

    /// React to one key press, as the frame loop's first step: Backspace
    /// shortens the query, Enter asks for the highlighted program to be
    /// spawned, Down and Up move the cursor with wrap-around, Escape asks
    /// the loop to stop, and any other key leaves the state alone (the
    /// characters it typed arrive through `push_char`).
    pub fn handle_key(&mut self, key: KeyInput) -> (act: Action)
        requires
            old(self).inv(),
            key is Enter || key is Down ==> old(self).shown().len() > 0,
        ensures
            final(self).inv(),
            final(self).width_px() == old(self).width_px(),
            final(self).height_px() == old(self).height_px(),
            final(self).font_px() == old(self).font_px(),
            final(self).max_shown() == old(self).max_shown(),
            final(self).all_view() == old(self).all_view(),
            final(self).shown() == old(self).shown(),
            final(self).query_view() == (if key is Backspace && old(self).query_view().len() > 0 {
                old(self).query_view().drop_last()
            } else {
                old(self).query_view()
            }),
            final(self).selected_at() == (match key {
                KeyInput::Down => (old(self).selected_at() + 1) % (old(self).shown().len() as int),
                KeyInput::Up => if old(self).shown().len() == 0 {
                    0int
                } else if old(self).selected_at() == 0 {
                    old(self).shown().len() - 1
                } else {
                    old(self).selected_at() - 1
                },
                _ => old(self).selected_at(),
            }),
            match key {
                KeyInput::Enter => act matches Action::Spawn(p) && p@ == old(self).shown()[old(
                    self,
                ).selected_at()],
                KeyInput::Escape => act is Stop,
                _ => act is Idle,
            },
    {
        match key {
            KeyInput::Backspace => {
                self.search_bar.pop();
                Action::Idle
            },
            KeyInput::Enter => {
                proof {
                    self.programs.lemma_inv_bounds();
                }
                let sel = self.programs.at_cursor();
                let p = sel.clone();
                proof {
                    assert(p@ =~= sel@);
                    assert(self.shown()[self.selected_at()] == sel@);
                }
                Action::Spawn(p)
            },
            KeyInput::Down => {
                self.programs.increase();
                Action::Idle
            },
            KeyInput::Up => {
                self.programs.decrease();
                Action::Idle
            },
            KeyInput::Escape => Action::Stop,
            KeyInput::Other => Action::Idle,
        }
    }

    /// Append one typed character to the query.
    pub fn push_char(&mut self, c: char)
        requires
            old(self).inv(),
        ensures
            final(self).inv(),
            final(self).width_px() == old(self).width_px(),
            final(self).height_px() == old(self).height_px(),
            final(self).font_px() == old(self).font_px(),
            final(self).max_shown() == old(self).max_shown(),
            final(self).all_view() == old(self).all_view(),
            final(self).shown() == old(self).shown(),
            final(self).selected_at() == old(self).selected_at(),
            final(self).query_view() == old(self).query_view().push(c),
    {
        self.search_bar.push(c);
    }

    /// Recompute the display from the full list and the query: keep the
    /// matching candidates in order, cap them at what fits, sort them by
    /// name length, and clamp the cursor back inside.
    pub fn update_programs(&mut self)
        requires
            old(self).inv(),
        ensures
            final(self).inv(),
            final(self).width_px() == old(self).width_px(),
            final(self).height_px() == old(self).height_px(),
            final(self).font_px() == old(self).font_px(),
            final(self).max_shown() == old(self).max_shown(),
            final(self).all_view() == old(self).all_view(),
            final(self).query_view() == old(self).query_view(),
            final(self).shown() == sort_by_len(
                clipped(
                    matching_candidates(old(self).all_view(), old(self).query_view()),
                    old(self).max_shown(),
                ),
            ),
            ordered_by_len(final(self).shown()),
            final(self).shown().to_multiset() == clipped(
                matching_candidates(old(self).all_view(), old(self).query_view()),
                old(self).max_shown(),
            ).to_multiset(),
            final(self).selected_at() == (if final(self).shown().len() == 0 {
                0int
            } else if old(self).selected_at() >= final(self).shown().len() {
                final(self).shown().len() - 1
            } else {
                old(self).selected_at()
            }),
    {
        let mut kept = filter_programs(&self.all_programs, &self.search_bar);
        let ghost kept_before: Seq<Vec<char>> = kept@;
        kept.truncate(self.max);
        proof {
            if kept_before.len() > self.max as int {
                lemma_views_of_take(kept_before, self.max as int);
                assert(kept_before.subrange(0, self.max as int) =~= kept_before.take(
                    self.max as int,
                ));
            }
            assert(views_of(kept@) == clipped(views_of(kept_before), self.max as int));
        }
        let sorted = sort_programs(&kept);
        proof {
            lemma_sort_by_len_len(views_of(kept@));
            lemma_sort_by_len_ordered(views_of(kept@));
            lemma_sort_by_len_permutes(views_of(kept@));
        }
        self.programs.substitute(sorted);
    }

    /// Where each candidate is drawn: rows of one font height, starting two
    /// font heights down, all inside the window, the highlighted one marked.
    pub fn layout_rows(&self) -> (rows: Vec<Row>)
        requires
            self.inv(),
        ensures
            rows@.len() == self.shown().len(),
            forall|i: int|
                0 <= i < rows@.len() ==> {
                    &&& (#[trigger] rows@[i]).text@ == self.shown()[i]
                    &&& rows@[i].at.x == TEXT_PADDING
                    &&& rows@[i].at.y == i * self.font_px() + 2 * self.font_px()
                    &&& rows@[i].at.y < self.height_px()
                    &&& (rows@[i].selected <==> i == self.selected_at())
                },
    {
        let f: usize = self.font_size as usize;
        let h: usize = self.height as usize;
        let n: usize = self.programs.as_slice().len();
        let cur: usize = self.programs.cursor();
        let mut rows: Vec<Row> = Vec::new();
        let mut i: usize = 0;
        proof {
            assert(h as int == self.height_px());
            assert(f as int == self.font_px());
            lemma_fundamental_div_mod(h as int, f as int);
            lemma_mod_bound(h as int, f as int);
            assert(self.max_shown() + 2 == h as int / f as int);
            assert((self.max_shown() + 2) * (f as int) == (f as int) * (h as int / f as int));
            assert((self.max_shown() + 2) * f <= h);
        }
        while i < n
            invariant
                self.inv(),
                f == self.font_px(),
                h == self.height_px(),
                n == self.shown().len(),
                cur == self.selected_at(),
                (self.max_shown() + 2) * f <= h,
                i <= n,
                rows@.len() == i,
                forall|k: int|
                    0 <= k < i ==> {
                        &&& (#[trigger] rows@[k]).text@ == self.shown()[k]
                        &&& rows@[k].at.x == TEXT_PADDING
                        &&& rows@[k].at.y == k * self.font_px() + 2 * self.font_px()
                        &&& rows@[k].at.y < self.height_px()
                        &&& (rows@[k].selected <==> k == self.selected_at())
                    },
            decreases n - i,
        {
            proof {
                assert(i as int + 2 <= self.max_shown() + 1);
                lemma_mul_inequality(i as int + 2, self.max_shown() + 1, f as int);
                lemma_mul_strict_inequality(self.max_shown() + 1, self.max_shown() + 2, f as int);
                assert((i as int + 2) * (f as int) < h as int);
                assert((i as int) * (f as int) + 2 * (f as int) == (i as int + 2) * (f as int))
                    by (nonlinear_arith);
                assert(0 <= (i as int) * (f as int)) by (nonlinear_arith)
                    requires
                        0 <= i as int,
                        0 <= f as int,
                ;
            }
            let y: usize = i * f + 2 * f;
            let text = self.programs.get(i).clone();
            proof {
                assert(text@ =~= self.shown()[i as int]);
            }
            let row = Row {
                text,
                at: Position { x: TEXT_PADDING, y: y as i32 },
                selected: i == cur,
            };
            rows.push(row);
            i += 1;
        }
        rows
    }

    /// The search bar strip spans the window and stands one and a half font
    /// heights tall; the query text sits a quarter font height down.
    pub fn chrome(&self) -> (c: Chrome)
        requires
            self.inv(),
        ensures
            c.bar_width == self.width_px(),
            c.bar_height == self.font_px() + self.font_px() / 2,
            c.query_at.x == TEXT_PADDING,
            c.query_at.y == self.font_px() / 4,
    {
        let f: usize = self.font_size as usize;
        let bar_height: usize = f + f / 2;
        proof {
            assert(f / 2 <= f);
            assert(f / 4 <= f);
        }
        Chrome {
            bar_width: self.width,
            bar_height: bar_height as i32,
            query_at: Position { x: TEXT_PADDING, y: (f / 4) as i32 },
        }
    }

    /// The query as typed so far.
    pub fn query(&self) -> (r: &Vec<char>)
        ensures
            r@ == self.query_view(),
    {
        &self.search_bar
    }

    /// How many candidates are on display.
    pub fn shown_count(&self) -> (r: usize)
        requires
            self.inv(),
        ensures
            r == self.shown().len(),
    {
        self.programs.as_slice().len()
    }

    /// The index of the highlighted candidate.
    pub fn selected_index(&self) -> (r: usize)
        requires
            self.inv(),
        ensures
            r == self.selected_at(),
    {
        self.programs.cursor()
    }
}

} // verus!
