use vstd::prelude::*;

use crate::errors::TimeOverflow;
use crate::errors::TimeParserError;
use crate::text::line_clean;

verus! {

/// A signed span of time, measured in whole seconds.
pub trait TimeUnits: Sized {
    /// The span's length as a mathematical number of seconds.
    spec fn sec_view(&self) -> int;

    /// Builds the span of a given number of whole seconds.
    fn seconds(seconds: i64) -> (r: Self)
        ensures
            r.sec_view() == seconds as int,
    ;

    /// The span's total signed length in whole seconds.
    fn num_seconds(&self) -> (r: i64)
        ensures
            r as int == self.sec_view(),
    ;
}

/// An instant in time.
///
/// An implementation chooses a representable range of instants, each
/// identified by a whole number of seconds on a common axis (`ts_view`), and
/// a canonical one-line text form (`render_of`).  The counter engine relies
/// only on this interface, so a wall-clock implementation and a
/// deterministic test clock are interchangeable.
pub trait Time: Sized + Copy {
    /// The span type produced by subtracting two instants.
    type Duration: TimeUnits;

    /// Well-formedness: the instant lies in the representable range.
    spec fn inv(&self) -> bool;

    /// The instant's position, in whole seconds on the implementation's axis.
    spec fn ts_view(&self) -> int;

    /// Whether a position is representable as an instant.
    spec fn in_range(n: int) -> bool;

    /// The canonical text of the instant at position `n`.
    spec fn render_of(n: int) -> Seq<char>;

    /// A well-formed instant's position is representable.
    proof fn lemma_inv_in_range(a: Self)
        requires
            a.inv(),
        ensures
            Self::in_range(a.ts_view()),
    ;

    /// Two well-formed instants at the same position are the same instant.
    proof fn lemma_view_injective(a: Self, b: Self)
        requires
            a.inv(),
            b.inv(),
            a.ts_view() == b.ts_view(),
        ensures
            a == b,
    ;

    /// The current instant.
    fn now() -> (r: Self)
        ensures
            r.inv(),
    ;

    /// The default instant: the origin of the implementation's axis.
    fn default_value() -> (r: Self)
        ensures
            r.inv(),
            r.ts_view() == 0,
    ;

    /// Displaces the instant by a span.  Succeeds exactly when the result is
    /// representable; fails with `TimeOverflow` otherwise.
    fn add_seconds(self, duration: Self::Duration) -> (r: Result<Self, TimeOverflow>)
        requires
            self.inv(),
        ensures
            r matches Ok(t) ==> t.inv() && t.ts_view() == self.ts_view() + duration.sec_view(),
            r is Ok <==> Self::in_range(self.ts_view() + duration.sec_view()),
    ;

    /// The signed span from `other` to `self` (`self` minus `other`).
    fn diff(self, other: Self) -> (r: Self::Duration)
        requires
            self.inv(),
            other.inv(),
        ensures
            r.sec_view() == self.ts_view() - other.ts_view(),
    ;

    /// The canonical text of this instant: one line, parseable back to the
    /// same instant.
    fn render(&self) -> (r: String)
        requires
            self.inv(),
        ensures
            r@ == Self::render_of(self.ts_view()),
            line_clean(r@),
    ;

    /// Parses a canonical text back into an instant.  Any string that is the
    /// canonical text of a representable instant yields that instant.
    fn parse(s: &str) -> (r: Result<Self, TimeParserError>)
        ensures
            r matches Ok(t) ==> t.inv(),
            forall|n: int|
                Self::in_range(n) && s@ == #[trigger] Self::render_of(n) ==> (r matches Ok(t)
                    && t.ts_view() == n),
    ;
}

/// Law: rendering an instant and parsing the text back returns the same
/// instant.
pub fn render_parse_round_trip<T: Time>(x: &T) -> (r: Result<T, TimeParserError>)
    requires
        x.inv(),
    ensures
        r == Ok::<T, TimeParserError>(*x),
{
    let rendered = x.render();
    let r = T::parse(rendered.as_str());
    proof {
        T::lemma_inv_in_range(*x);
        if let Ok(t) = r {
            T::lemma_view_injective(t, *x);
        }
    }
    r
}

} // verus!
