use vstd::prelude::*;

pub mod errors;
pub mod text;
pub mod times;
pub mod types;

pub use crate::errors::InvalidDirection;
pub use crate::errors::MalformedData;
pub use crate::errors::TimeOverflow;
pub use crate::errors::TimeParserError;
pub use crate::times::Time;
pub use crate::times::TimeUnits;

use crate::text::clock_text;
use crate::text::format_clock;
use crate::text::lemma_line_break_at;
use crate::text::lemma_split_lines_head;
use crate::text::line_break;
use crate::text::line_clean;
use crate::text::split_first_line;
use crate::text::split_lines;
use crate::text::str_eq;

verus! {

/// Whether a counter reports time elapsed since its start (`Up`) or time
/// remaining until its end (`Down`).
#[derive(Debug, PartialEq, Eq, PartialOrd, Ord, Structural)]
pub enum Direction {
    Up,
    Down,
}

/// The text form of a direction: exactly `Up` or `Down`.
pub open spec fn dir_text(d: Direction) -> Seq<char> {
    match d {
        Direction::Up => "Up"@,
        Direction::Down => "Down"@,
    }
}

/// The direction a text denotes, if any: only the exact tokens `Up` and
/// `Down` denote one.
pub open spec fn dir_of_text(s: Seq<char>) -> Option<Direction> {
    if s == "Up"@ {
        Some(Direction::Up)
    } else if s == "Down"@ {
        Some(Direction::Down)
    } else {
        None
    }
}

/// The opposite direction.
pub open spec fn flip_of(d: Direction) -> Direction {
    match d {
        Direction::Up => Direction::Down,
        Direction::Down => Direction::Up,
    }
}

/// Law: flipping a direction twice returns the original direction.
pub proof fn lemma_flip_involutive(d: Direction)
    ensures
        flip_of(flip_of(d)) == d,
{
}

/// The text of each direction denotes that direction, and is one line.
pub proof fn lemma_dir_text_round_trip(d: Direction)
    ensures
        dir_of_text(dir_text(d)) == Some(d),
        line_clean(dir_text(d)),
{
    reveal_strlit("Up");
    reveal_strlit("Down");
    match d {
        Direction::Up => {
            assert forall|i: int| 0 <= i < dir_text(d).len() implies #[trigger] dir_text(d)[i]
                != '\n' by {}
        },
        Direction::Down => {
            assert(dir_text(d).len() == 4);
            assert(dir_text(d) != "Up"@);
            assert forall|i: int| 0 <= i < dir_text(d).len() implies #[trigger] dir_text(d)[i]
                != '\n' by {}
        },
    }
}

impl Direction {
    /// Reads a direction from its text form; any other text is rejected.
    pub fn from_str(s: &str) -> (r: Result<Direction, InvalidDirection>)
        ensures
            r == match dir_of_text(s@) {
                Some(d) => Ok::<Direction, InvalidDirection>(d),
                None => Err::<Direction, InvalidDirection>(InvalidDirection),
            },
    {
        if str_eq(s, "Up") {
            Ok(Direction::Up)
        } else if str_eq(s, "Down") {
            Ok(Direction::Down)
        } else {
            Err(InvalidDirection)
        }
    }

    /// The direction's text form.
    pub fn as_str(&self) -> (r: &'static str)
        ensures
            r@ == dir_text(*self),
    {
        match self {
            Direction::Up => "Up",
            Direction::Down => "Down",
        }
    }
}

/// A negative total is displayed as zero: the counter never goes below
/// `00:00:00`.
pub open spec fn clamp_secs(total: int) -> int {
    if total < 0 {
        0
    } else {
        total
    }
}

/// The displayed hours/minutes/seconds triple for a signed total of
/// seconds: clamped at zero, then decomposed by truncating division.
pub open spec fn spec_counter(total: int) -> (int, int, int) {
    (clamp_secs(total) / 3600, (clamp_secs(total) / 60) % 60, clamp_secs(total) % 60)
}

/// The total number of full hours for a signed total of seconds.
pub open spec fn spec_hours(total: int) -> int {
    clamp_secs(total) / 3600
}

/// The total number of full minutes for a signed total of seconds.
pub open spec fn spec_minutes(total: int) -> int {
    clamp_secs(total) / 60
}

/// The total number of full seconds for a signed total of seconds.
pub open spec fn spec_seconds(total: int) -> int {
    clamp_secs(total)
}

/// Law: no displayed component is ever negative, and once the signed total
/// is negative the display is exactly zero.
pub proof fn lemma_counter_clamped(total: int)
    ensures
        spec_counter(total).0 >= 0,
        0 <= spec_counter(total).1 < 60,
        0 <= spec_counter(total).2 < 60,
        total < 0 ==> spec_counter(total) == (0int, 0int, 0int),
{
    let c = clamp_secs(total);
    vstd::arithmetic::div_mod::lemma_div_pos_is_pos(c, 3600);
    vstd::arithmetic::div_mod::lemma_div_pos_is_pos(c, 60);
    vstd::arithmetic::div_mod::lemma_mod_bound(c / 60, 60);
    vstd::arithmetic::div_mod::lemma_mod_bound(c, 60);
    if total < 0 {
        vstd::arithmetic::div_mod::lemma_basic_div(0, 3600);
        vstd::arithmetic::div_mod::lemma_basic_div(0, 60);
        vstd::arithmetic::div_mod::lemma_small_mod(0, 60);
    }
}

/// Law: the cumulative totals agree with the displayed triple: the hours
/// total is the displayed hours, and the minutes and seconds totals carry
/// the displayed minutes and seconds as their remainders.
pub proof fn lemma_component_totals(total: int)
    ensures
        spec_hours(total) == spec_counter(total).0,
        spec_minutes(total) % 60 == spec_counter(total).1,
        spec_seconds(total) % 60 == spec_counter(total).2,
{
}

/// A counter: a start instant, an end instant, and a direction.  Depending
/// on the direction it reports the time elapsed since `start` or the time
/// remaining until `end`, clamped at zero, as an hours/minutes/seconds
/// display.
#[derive(Debug, PartialEq, Eq, PartialOrd, Ord, Structural)]
pub struct Counter<T> {
    pub start: T,
    pub end: T,
    pub direction: Direction,
}

impl<T: Time> Counter<T> {
    /// Both endpoints are well-formed instants.
    pub open spec fn inv(&self) -> bool {
        self.start.inv() && self.end.inv()
    }

    /// The signed total of seconds the counter reports when the current
    /// instant sits at position `now`: remaining time for a `Down` counter,
    /// elapsed time for an `Up` counter.
    pub open spec fn spec_total(&self, now: int) -> int {
        match self.direction {
            Direction::Down => self.end.ts_view() - now,
            Direction::Up => now - self.start.ts_view(),
        }
    }

    /// The counter with its direction reversed.
    pub open spec fn spec_flip(self) -> Counter<T> {
        Counter { start: self.start, end: self.end, direction: flip_of(self.direction) }
    }

    /// The persisted text of the counter: rendered start, rendered end and
    /// direction token, joined by newlines.
    pub open spec fn spec_text(&self) -> Seq<char> {
        T::render_of(self.start.ts_view()) + seq!['\n'] + T::render_of(self.end.ts_view())
            + seq!['\n'] + dir_text(self.direction)
    }

    /// A counter that counts down towards `end`.  An absent endpoint takes
    /// the instant type's default value.  No ordering between the endpoints
    /// is required: a counter whose end has already passed is valid and
    /// simply reports zero.  The end is stored exactly as given — no grace
    /// second is added, so a counter built ten seconds before its end
    /// displays `00:00:10` at that moment and counts down from there.
    pub fn down(start: Option<T>, end: Option<T>) -> (r: Counter<T>)
        requires
            start matches Some(s) ==> s.inv(),
            end matches Some(e) ==> e.inv(),
        ensures
            r.inv(),
            r.direction == Direction::Down,
            start matches Some(s) ==> r.start == s,
            start is None ==> r.start.ts_view() == 0,
            end matches Some(e) ==> r.end == e,
            end is None ==> r.end.ts_view() == 0,
    {
        let s = match start {
            Some(v) => v,
            None => T::default_value(),
        };
        let e = match end {
            Some(v) => v,
            None => T::default_value(),
        };
        Counter { start: s, end: e, direction: Direction::Down }
    }

    /// A counter that counts up from `start`.  An absent endpoint takes the
    /// instant type's default value.  No ordering between the endpoints is
    /// required: a counter whose start lies in the future is valid and
    /// simply reports zero until the start passes.
    pub fn up(start: Option<T>, end: Option<T>) -> (r: Counter<T>)
        requires
            start matches Some(s) ==> s.inv(),
            end matches Some(e) ==> e.inv(),
        ensures
            r.inv(),
            r.direction == Direction::Up,
            start matches Some(s) ==> r.start == s,
            start is None ==> r.start.ts_view() == 0,
            end matches Some(e) ==> r.end == e,
            end is None ==> r.end.ts_view() == 0,
    {
        let s = match start {
            Some(v) => v,
            None => T::default_value(),
        };
        let e = match end {
            Some(v) => v,
            None => T::default_value(),
        };
        Counter { start: s, end: e, direction: Direction::Up }
    }

    /// Reverses the direction of the counter in place; the endpoints are
    /// untouched.  Flipping twice restores the counter exactly.
    pub fn flip(&mut self)
        ensures
            *final(self) == old(self).spec_flip(),
            final(self).start == old(self).start,
            final(self).end == old(self).end,
            final(self).direction == flip_of(old(self).direction),
    {
        self.direction = match self.direction {
            Direction::Up => Direction::Down,
            Direction::Down => Direction::Up,
        };
    }

    /// The span the counter currently reports, read from one sample of the
    /// current instant.
    fn duration(&self) -> (r: T::Duration)
        requires
            self.inv(),
        ensures
            exists|now: int|
                #[trigger] T::in_range(now) && r.sec_view() == self.spec_total(now),
    {
        let current = T::now();
        proof {
            T::lemma_inv_in_range(current);
        }
        let r = match self.direction {
            Direction::Down => self.end.diff(current),
            Direction::Up => current.diff(self.start),
        };
        proof {
            assert(T::in_range(current.ts_view()) && r.sec_view() == self.spec_total(
                current.ts_view(),
            ));
        }
        r
    }

    /// The displayed hours/minutes/seconds triple for a given position of
    /// the current instant.
    pub fn counter_at(&self, now: &T) -> (r: (i64, i64, i64))
        requires
            self.inv(),
            now.inv(),
        ensures
            (r.0 as int, r.1 as int, r.2 as int) == spec_counter(self.spec_total(now.ts_view())),
            r.0 >= 0,
            0 <= r.1 < 60,
            0 <= r.2 < 60,
    {
        let span = match self.direction {
            Direction::Down => self.end.diff(*now),
            Direction::Up => now.diff(self.start),
        };
        let num = span.num_seconds();
        let ghost total = self.spec_total(now.ts_view());
        proof {
            lemma_counter_clamped(total);
        }
        if num >= 0 {
            let n = num as u64;
            let h = n / 3600;
            let m = (n / 60) % 60;
            let s = n % 60;
            proof {
                vstd::arithmetic::div_mod::lemma_div_nonincreasing(n as int, 3600);
                vstd::arithmetic::div_mod::lemma_div_nonincreasing(n as int, 60);
            }
            (h as i64, m as i64, s as i64)
        } else {
            (0, 0, 0)
        }
    }

    /// The displayed hours/minutes/seconds triple, read from one sample of
    /// the current instant.
    pub fn counter(&self) -> (r: (i64, i64, i64))
        requires
            self.inv(),
        ensures
            r.0 >= 0,
            0 <= r.1 < 60,
            0 <= r.2 < 60,
            exists|now: int|
                #[trigger] T::in_range(now) && (r.0 as int, r.1 as int, r.2 as int) == spec_counter(
                    self.spec_total(now),
                ),
    {
        let current = T::now();
        proof {
            T::lemma_inv_in_range(current);
        }
        let r = self.counter_at(&current);
        proof {
            assert(T::in_range(current.ts_view()) && (r.0 as int, r.1 as int, r.2 as int)
                == spec_counter(self.spec_total(current.ts_view())));
        }
        r
    }

    /// The total number of full hours currently on the counter.
    pub fn hours(&self) -> (r: i64)
        requires
            self.inv(),
        ensures
            r >= 0,
            exists|now: int| #[trigger] T::in_range(now) && r as int == spec_hours(self.spec_total(now)),
    {
        let span = self.duration();
        let num = span.num_seconds();
        let ghost now = choose|now: int|
            T::in_range(now) && span.sec_view() == self.spec_total(now);
        if num >= 0 {
            let n = num as u64;
            let h = n / 3600;
            proof {
                vstd::arithmetic::div_mod::lemma_div_nonincreasing(n as int, 3600);
                vstd::arithmetic::div_mod::lemma_div_pos_is_pos(n as int, 3600);
                assert(T::in_range(now) && h as int == spec_hours(self.spec_total(now)));
            }
            h as i64
        } else {
            proof {
                vstd::arithmetic::div_mod::lemma_basic_div(0, 3600);
                assert(T::in_range(now) && 0int == spec_hours(self.spec_total(now)));
            }
            0
        }
    }

    /// The total number of full minutes currently on the counter.
    pub fn minutes(&self) -> (r: i64)
        requires
            self.inv(),
        ensures
            r >= 0,
            exists|now: int|
                #[trigger] T::in_range(now) && r as int == spec_minutes(self.spec_total(now)),
    {
        let span = self.duration();
        let num = span.num_seconds();
        let ghost now = choose|now: int|
            T::in_range(now) && span.sec_view() == self.spec_total(now);
        if num >= 0 {
            let n = num as u64;
            let m = n / 60;
            proof {
                vstd::arithmetic::div_mod::lemma_div_nonincreasing(n as int, 60);
                vstd::arithmetic::div_mod::lemma_div_pos_is_pos(n as int, 60);
                assert(T::in_range(now) && m as int == spec_minutes(self.spec_total(now)));
            }
            m as i64
        } else {
            proof {
                vstd::arithmetic::div_mod::lemma_basic_div(0, 60);
                assert(T::in_range(now) && 0int == spec_minutes(self.spec_total(now)));
            }
            0
        }
    }

    /// The total number of full seconds currently on the counter.
    pub fn seconds(&self) -> (r: i64)
        requires
            self.inv(),
        ensures
            r >= 0,
            exists|now: int|
                #[trigger] T::in_range(now) && r as int == spec_seconds(self.spec_total(now)),
    {
        let span = self.duration();
        let num = span.num_seconds();
        let ghost now = choose|now: int|
            T::in_range(now) && span.sec_view() == self.spec_total(now);
        if num >= 0 {
            proof {
                assert(T::in_range(now) && num as int == spec_seconds(self.spec_total(now)));
            }
            num
        } else {
            proof {
                assert(T::in_range(now) && 0int == spec_seconds(self.spec_total(now)));
            }
            0
        }
    }

    /// Displaces `start` by the given span.  Either the whole displacement
    /// is applied, or the counter is left exactly as it was and a
    /// `TimeOverflow` is returned: this fails exactly when the displaced
    /// start would leave the representable range.
    pub fn try_move_start(&mut self, seconds: T::Duration) -> (r: Result<(), TimeOverflow>)
        requires
            old(self).inv(),
        ensures
            final(self).inv(),
            final(self).end == old(self).end,
            final(self).direction == old(self).direction,
            r is Ok <==> T::in_range(old(self).start.ts_view() + seconds.sec_view()),
            r is Ok ==> final(self).start.ts_view() == old(self).start.ts_view()
                + seconds.sec_view(),
            r is Err ==> *final(self) == *old(self),
    {
        match self.start.add_seconds(seconds) {
            Ok(moved) => {
                self.start = moved;
                Ok(())
            },
            Err(e) => Err(e),
        }
    }

    /// Displaces `end` by the given span.  Either the whole displacement is
    /// applied, or the counter is left exactly as it was and a
    /// `TimeOverflow` is returned: this fails exactly when the displaced
    /// end would leave the representable range.
    pub fn try_move_end(&mut self, seconds: T::Duration) -> (r: Result<(), TimeOverflow>)
        requires
            old(self).inv(),
        ensures
            final(self).inv(),
            final(self).start == old(self).start,
            final(self).direction == old(self).direction,
            r is Ok <==> T::in_range(old(self).end.ts_view() + seconds.sec_view()),
            r is Ok ==> final(self).end.ts_view() == old(self).end.ts_view() + seconds.sec_view(),
            r is Err ==> *final(self) == *old(self),
    {
        match self.end.add_seconds(seconds) {
            Ok(moved) => {
                self.end = moved;
                Ok(())
            },
            Err(e) => Err(e),
        }
    }

    /// The persisted text of the counter: three newline-joined fields, in
    /// order the rendered start, the rendered end, and the direction token.
    pub fn to_text(&self) -> (r: String)
        requires
            self.inv(),
        ensures
            r@ == self.spec_text(),
            line_clean(T::render_of(self.start.ts_view())),
            line_clean(T::render_of(self.end.ts_view())),
    {
        let mut out = self.start.render();
        out.append("\n");
        let rendered_end = self.end.render();
        out.append(rendered_end.as_str());
        out.append("\n");
        out.append(self.direction.as_str());
        proof {
            reveal_strlit("\n");
            assert("\n"@ =~= seq!['\n']);
            assert(out@ =~= self.spec_text());
        }
        out
    }

    /// Reads a counter back from its persisted text: the first three
    /// newline-separated fields are the start, the end and the direction;
    /// any further fields are ignored.  Returns a `MalformedData` error when
    /// fewer than three fields are present or a field fails its parse;
    /// never a partial counter.  Any text produced by `to_text` is read
    /// back as exactly the counter it came from.
    pub fn from_text(s: &str) -> (r: Result<Counter<T>, MalformedData>)
        ensures
            split_lines(s@).len() < 3 <==> r == Err::<Counter<T>, MalformedData>(
                MalformedData::MissingFields,
            ),
            r matches Ok(c) ==> c.inv() && split_lines(s@).len() >= 3 && dir_of_text(
                split_lines(s@)[2],
            ) == Some(c.direction),
            split_lines(s@).len() >= 3 && dir_of_text(split_lines(s@)[2]) is None ==> r is Err,
            forall|c: Counter<T>|
                #[trigger] Self::canonical_text_for(s@, c) ==> r == Ok::<Counter<T>, MalformedData>(
                    c,
                ),
    {
        proof {
            lemma_split_lines_head(s@);
        }
        let (first, after_first) = split_first_line(s);
        let rest1 = match after_first {
            Some(rest) => rest,
            None => {
                proof {
                    assert(split_lines(s@).len() == 1);
                    assert forall|c: Counter<T>| Self::canonical_text_for(s@, c) implies false by {
                        Self::lemma_canonical_shape(s@, c);
                    }
                }
                return Err(MalformedData::MissingFields);
            },
        };
        proof {
            lemma_split_lines_head(rest1@);
            assert(split_lines(s@) =~= seq![first@] + split_lines(rest1@));
        }
        let (second, after_second) = split_first_line(rest1);
        let rest2 = match after_second {
            Some(rest) => rest,
            None => {
                proof {
                    assert(split_lines(s@).len() == 2);
                    assert forall|c: Counter<T>| Self::canonical_text_for(s@, c) implies false by {
                        Self::lemma_canonical_shape(s@, c);
                    }
                }
                return Err(MalformedData::MissingFields);
            },
        };
        proof {
            lemma_split_lines_head(rest2@);
            assert(split_lines(rest1@) =~= seq![second@] + split_lines(rest2@));
            assert(split_lines(s@).len() >= 3);
            assert(split_lines(s@)[2] =~= split_lines(rest2@)[0]);
            assert(split_lines(rest2@)[0] =~= rest2@.take(line_break(rest2@)));
        }
        let (third, _ignored) = split_first_line(rest2);
        let start = match T::parse(first) {
            Ok(t) => t,
            Err(_) => {
                proof {
                    assert forall|c: Counter<T>| Self::canonical_text_for(s@, c) implies false by {
                        Self::lemma_canonical_shape(s@, c);
                        T::lemma_inv_in_range(c.start);
                        assert(first@ == T::render_of(c.start.ts_view()));
                    }
                }
                return Err(MalformedData::InvalidStart);
            },
        };
        let end = match T::parse(second) {
            Ok(t) => t,
            Err(_) => {
                proof {
                    assert forall|c: Counter<T>| Self::canonical_text_for(s@, c) implies false by {
                        Self::lemma_canonical_shape(s@, c);
                        T::lemma_inv_in_range(c.end);
                        assert(second@ == T::render_of(c.end.ts_view()));
                    }
                }
                return Err(MalformedData::InvalidEnd);
            },
        };
        let direction = match Direction::from_str(third) {
            Ok(d) => d,
            Err(_) => {
                proof {
                    assert forall|c: Counter<T>| Self::canonical_text_for(s@, c) implies false by {
                        Self::lemma_canonical_shape(s@, c);
                        lemma_dir_text_round_trip(c.direction);
                        assert(third@ == dir_text(c.direction));
                    }
                }
                return Err(MalformedData::InvalidDirection);
            },
        };
        let built = Counter { start, end, direction };
        let r = Ok::<Counter<T>, MalformedData>(built);
        proof {
            assert(dir_of_text(split_lines(s@)[2]) == Some(direction));
            assert forall|c: Counter<T>| Self::canonical_text_for(s@, c) implies r == Ok::<
                Counter<T>,
                MalformedData,
            >(c) by {
                Self::lemma_canonical_shape(s@, c);
                T::lemma_inv_in_range(c.start);
                T::lemma_inv_in_range(c.end);
                assert(first@ == T::render_of(c.start.ts_view()));
                assert(second@ == T::render_of(c.end.ts_view()));
                T::lemma_view_injective(start, c.start);
                T::lemma_view_injective(end, c.end);
                lemma_dir_text_round_trip(c.direction);
                assert(third@ == dir_text(c.direction));
                assert(direction == c.direction);
                assert(built == c);
            }
        }
        r
    }

    /// Whether `s` is the canonical persisted text of the well-formed
    /// counter `c`, with both endpoint renderings free of newlines.
    pub open spec fn canonical_text_for(s: Seq<char>, c: Counter<T>) -> bool {
        c.inv() && line_clean(T::render_of(c.start.ts_view())) && line_clean(
            T::render_of(c.end.ts_view()),
        ) && s == c.spec_text()
    }

    /// How the canonical text of a counter splits: the first field is the
    /// rendered start, then the rendered end, then the direction token.
    proof fn lemma_canonical_shape(s: Seq<char>, c: Counter<T>)
        requires
            Self::canonical_text_for(s, c),
        ensures
            line_break(s) == T::render_of(c.start.ts_view()).len(),
            s.take(T::render_of(c.start.ts_view()).len() as int) == T::render_of(
                c.start.ts_view(),
            ),
            s.skip(T::render_of(c.start.ts_view()).len() as int + 1) == T::render_of(c.end.ts_view())
                + seq!['\n'] + dir_text(c.direction),
            line_break(s) < s.len(),
            ({
                let rest = s.skip(T::render_of(c.start.ts_view()).len() as int + 1);
                line_break(rest) == T::render_of(c.end.ts_view()).len() && rest.take(
                    T::render_of(c.end.ts_view()).len() as int,
                ) == T::render_of(c.end.ts_view()) && line_break(rest) < rest.len() && rest.skip(
                    T::render_of(c.end.ts_view()).len() as int + 1,
                ) == dir_text(c.direction) && ({
                    let last = rest.skip(T::render_of(c.end.ts_view()).len() as int + 1);
                    line_break(last) == last.len() && last.take(line_break(last))
                        == dir_text(c.direction)
                })
            }),
    {
        let a = T::render_of(c.start.ts_view());
        let b = T::render_of(c.end.ts_view());
        let d = dir_text(c.direction);
        lemma_dir_text_round_trip(c.direction);
        lemma_first_field(s, a, b + seq!['\n'] + d);
        let rest = s.skip(a.len() as int + 1);
        assert(rest =~= b + seq!['\n'] + d);
        lemma_first_field(rest, b, d);
        let last = rest.skip(b.len() as int + 1);
        assert(last =~= d);
        lemma_line_break_at(last, last.len() as int);
        assert(last.take(line_break(last)) =~= d);
    }

    /// Law: a counter persisted with `to_text` and read back with
    /// `from_text` yields the same counter, field for field.
    pub fn text_round_trip(&self) -> (r: Result<Counter<T>, MalformedData>)
        requires
            self.inv(),
        ensures
            r == Ok::<Counter<T>, MalformedData>(*self),
    {
        let persisted = self.to_text();
        proof {
            assert(Self::canonical_text_for(persisted@, *self));
        }
        Counter::<T>::from_text(persisted.as_str())
    }

    /// The clock display `HH:MM:SS`, read from one sample of the current
    /// instant: hours zero-padded to at least two digits and growing as
    /// needed, minutes and seconds exactly two digits, never below zero.
    pub fn clock_string(&self) -> (r: String)
        requires
            self.inv(),
        ensures
            exists|now: int|
                #[trigger] T::in_range(now) && r@ == clock_text(
                    spec_counter(self.spec_total(now)).0,
                    spec_counter(self.spec_total(now)).1,
                    spec_counter(self.spec_total(now)).2,
                ),
    {
        let current = T::now();
        proof {
            T::lemma_inv_in_range(current);
        }
        let (h, m, s) = self.counter_at(&current);
        let r = format_clock(h as u64, m as u64, s as u64);
        proof {
            assert(T::in_range(current.ts_view()) && r@ == clock_text(
                spec_counter(self.spec_total(current.ts_view())).0,
                spec_counter(self.spec_total(current.ts_view())).1,
                spec_counter(self.spec_total(current.ts_view())).2,
            ));
        }
        r
    }
}

/// Law: flipping a counter twice restores it exactly, so the display at any
/// one position of the current instant is unchanged.
pub proof fn lemma_flip_twice<T: Time>(c: Counter<T>, now: int)
    ensures
        c.spec_flip().spec_flip() == c,
        spec_counter(c.spec_flip().spec_flip().spec_total(now)) == spec_counter(
            c.spec_total(now),
        ),
{
    lemma_flip_involutive(c.direction);
}

/// The first newline-separated field of `a + "\n" + rest` is `a`, when `a`
/// itself contains no newline.
proof fn lemma_first_field(s: Seq<char>, a: Seq<char>, rest: Seq<char>)
    requires
        s =~= a + seq!['\n'] + rest,
        line_clean(a),
    ensures
        line_break(s) == a.len(),
        s.take(a.len() as int) == a,
        s.skip(a.len() as int + 1) == rest,
        line_break(s) < s.len(),
{
    assert(s[a.len() as int] == '\n');
    assert forall|j: int| 0 <= j < a.len() implies #[trigger] s[j] != '\n' by {
        assert(s[j] == a[j]);
    }
    lemma_line_break_at(s, a.len() as int);
    assert(s.take(a.len() as int) =~= a);
    assert(s.skip(a.len() as int + 1) =~= rest);
}

} // verus!
