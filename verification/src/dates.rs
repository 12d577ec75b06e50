//! Lists of dates and date ranges, written as `day/month` and
//! `day/month-day/month` and separated by commas.
use crate::calendar::{is_calendar_date, CalendarDate};
use crate::text::{
    all_digits, chars_of, first_position, is_digit_char, is_numeric_char, is_whitespace_char,
    lemma_first_position, lemma_first_position_is, parse_unsigned, unsigned_of,
};
use vstd::prelude::*;
use vstd::slice::slice_subrange;

verus! {

/// One entry of a dates field: a single day, or the first and last day of a
/// span that recurs weekly.
#[derive(Clone, Copy, Debug, PartialEq, Eq, Structural)]
pub struct DateComponent {
    pub start: CalendarDate,
    pub end: Option<CalendarDate>,
}

impl DateComponent {
    /// Both days exist.
    pub open spec fn wf(self) -> bool {
        &&& self.start.wf()
        &&& self.end matches Some(end) ==> end.wf()
    }
}

/// The characters a component may hold.
pub open spec fn is_component_char(c: char) -> bool {
    c == '/' || c == '-' || is_numeric_char(c)
}

/// The characters a dates field may hold besides whitespace.
pub open spec fn is_dates_char(c: char) -> bool {
    c == ',' || is_component_char(c)
}

/// Holds of every character that is not whitespace.
pub open spec fn not_whitespace() -> spec_fn(char) -> bool {
    |c: char| !is_whitespace_char(c)
}

/// The text without its whitespace.
pub open spec fn significant(text: Seq<char>) -> Seq<char> {
    text.filter(not_whitespace())
}

/// The pieces between commas. A comma at the very end closes the last piece
/// and opens no new one.
pub open spec fn split_commas(s: Seq<char>) -> Seq<Seq<char>>
    decreases s.len(),
{
    if s.len() == 0 {
        Seq::empty()
    } else {
        let k = first_position(s, ',');
        if 0 <= k < s.len() {
            seq![s.take(k)] + split_commas(s.skip(k + 1))
        } else {
            seq![s]
        }
    }
}

/// What stands before the first dash of a component.
pub open spec fn start_token(component: Seq<char>) -> Seq<char> {
    component.take(first_position(component, '-'))
}

/// Whether a component holds a dash and so names a range.
pub open spec fn is_range(component: Seq<char>) -> bool {
    first_position(component, '-') < component.len()
}

/// Holds of every character but the dash.
pub open spec fn not_dash() -> spec_fn(char) -> bool {
    |c: char| c != '-'
}

/// The sequence without its dashes.
pub open spec fn without_dashes(s: Seq<char>) -> Seq<char> {
    s.filter(not_dash())
}

/// What stands after the first dash of a component, further dashes left out;
/// nothing where the component holds no dash.
pub open spec fn end_token(component: Seq<char>) -> Seq<char> {
    if is_range(component) {
        without_dashes(component.skip(first_position(component, '-') + 1))
    } else {
        Seq::empty()
    }
}

/// The date that a token `day/month` names in a given year. The day has at
/// most two characters before the first slash, the month at most two after
/// it; both are unsigned numerals, and the day must exist.
pub open spec fn date_of_token(token: Seq<char>, year: int) -> Option<CalendarDate> {
    let slash = first_position(token, '/');
    if slash < token.len() {
        let day_text = token.take(slash);
        let month_text = token.skip(slash + 1);
        let day = unsigned_of(day_text, u32::MAX as nat);
        let month = unsigned_of(month_text, u32::MAX as nat);
        if day_text.len() <= 2 && month_text.len() <= 2 && day is Some && month is Some
            && is_calendar_date(year, month->0 as int, day->0 as int) {
            Some(
                (CalendarDate { year: year as i32, month: month->0 as u32, day: day->0 as u32 }),
            )
        } else {
            None
        }
    } else {
        None
    }
}

/// The date or range that a component names in a given year.
pub open spec fn component_of(component: Seq<char>, year: int) -> Option<DateComponent> {
    let start = date_of_token(start_token(component), year);
    let end = date_of_token(end_token(component), year);
    if start is None {
        None
    } else if !is_range(component) {
        Some((DateComponent { start: start->0, end: None }))
    } else if end is None {
        None
    } else {
        Some((DateComponent { start: start->0, end: end }))
    }
}

/// The components of a dates field in a given year, in the order in which
/// they are written. Whitespace is ignored wherever it stands. A character
/// that no component can hold, or a component that names no date, leaves the
/// whole field without a meaning.
pub open spec fn date_components(text: Seq<char>, year: int) -> Option<Seq<DateComponent>> {
    let s = significant(text);
    let parts = split_commas(s);
    if (forall|i: int| 0 <= i < s.len() ==> is_dates_char(#[trigger] s[i])) && (forall|i: int|
        0 <= i < parts.len() ==> component_of(#[trigger] parts[i], year) is Some) {
        Some(Seq::new(parts.len(), |i: int| component_of(parts[i], year)->0))
    } else {
        None
    }
}

/// Whether `r` is what a dates field denotes in the given year.
pub open spec fn is_dates_of(r: Option<Vec<DateComponent>>, text: Seq<char>, year: int) -> bool {
    match r {
        Some(v) => date_components(text, year) == Some(v@),
        None => date_components(text, year) is None,
    }
}

/// Reads one token `day/month`.
pub fn parse_date_token(token: &[char], year: i32) -> (r: Option<CalendarDate>)
    ensures
        r == date_of_token(token@, year as int),
        r matches Some(date) ==> date.wf(),
{
    let n = token.len();
    let mut slash: usize = 0;
    while slash < n && token[slash] != '/'
        invariant
            slash <= n,
            n == token@.len(),
            forall|j: int| 0 <= j < slash ==> token@[j] != '/',
        decreases n - slash,
    {
        slash += 1;
    }
    proof {
        lemma_first_position_is(token@, '/', slash as int);
    }
    if slash >= n || slash > 2 || n - (slash + 1) > 2 {
        return None;
    }
    let day = parse_unsigned(slice_subrange(token, 0, slash), u32::MAX as u64);
    let month = parse_unsigned(slice_subrange(token, slash + 1, n), u32::MAX as u64);
    proof {
        assert(token@.subrange(0, slash as int) =~= token@.take(slash as int));
        assert(token@.subrange(slash + 1, n as int) =~= token@.skip(slash + 1));
    }
    match (day, month) {
        (Some(d), Some(m)) => CalendarDate::new(year, m as u32, d as u32),
        _ => None,
    }
}

/// Where the scan of a component stands: before its dash, or after it.
#[derive(Clone, Copy, Debug, PartialEq, Eq, Structural)]
pub enum ScanState {
    ScanningStart,
    ScanningEnd,
}

/// Reads one component: a date, or two dates with a dash between them.
pub fn parse_component(component: &[char], year: i32) -> (r: Option<DateComponent>)
    ensures
        r == component_of(component@, year as int),
        r matches Some(found) ==> found.wf(),
{
    let n = component.len();
    let ghost dash = first_position(component@, '-');
    proof {
        lemma_first_position(component@, '-');
    }
    let mut state = ScanState::ScanningStart;
    let mut start: Vec<char> = Vec::new();
    let mut end: Vec<char> = Vec::new();
    let mut i: usize = 0;
    while i < n
        invariant
            i <= n,
            n == component@.len(),
            dash == first_position(component@, '-'),
            0 <= dash <= n,
            forall|j: int| 0 <= j < dash ==> component@[j] != '-',
            dash < n ==> component@[dash] == '-',
            state == ScanState::ScanningStart ==> i <= dash && start@ == component@.take(i as int)
                && end@.len() == 0,
            state == ScanState::ScanningEnd ==> dash < i && start@ == component@.take(dash)
                && end@ == without_dashes(component@.subrange(dash + 1, i as int)),
        decreases n - i,
    {
        let c = component[i];
        proof {
            if state == ScanState::ScanningEnd {
                let seen = component@.subrange(dash + 1, i as int);
                seen.lemma_filter_push(c, not_dash());
                assert(seen.push(c) =~= component@.subrange(dash + 1, i + 1));
            } else {
                assert(component@.take(i as int).push(c) =~= component@.take(i + 1));
                if c == '-' {
                    let none = component@.subrange(dash + 1, i + 1);
                    none.lemma_filter_len(not_dash());
                    assert(without_dashes(none) =~= Seq::<char>::empty());
                }
            }
        }
        match state {
            ScanState::ScanningStart => {
                if c == '-' {
                    state = ScanState::ScanningEnd;
                } else {
                    start.push(c);
                }
            },
            ScanState::ScanningEnd => {
                if c != '-' {
                    end.push(c);
                }
            },
        }
        i += 1;
    }
    proof {
        if dash < n {
            assert(component@.subrange(dash + 1, n as int) =~= component@.skip(dash + 1));
        }
    }
    let first = parse_date_token(start.as_slice(), year);
    match (first, state) {
        (None, _) => None,
        (Some(start), ScanState::ScanningStart) => Some(DateComponent { start, end: None }),
        (Some(start), ScanState::ScanningEnd) => {
            match parse_date_token(end.as_slice(), year) {
                None => None,
                Some(end) => Some(DateComponent { start, end: Some(end) }),
            }
        },
    }
}

/// The characters of a dates field that are not whitespace, provided that
/// each of them may stand in such a field.
fn significant_chars(text: &str) -> (r: Option<Vec<char>>)
    ensures
        match r {
            Some(v) => v@ == significant(text@) && forall|i: int|
                0 <= i < v@.len() ==> is_dates_char(#[trigger] v@[i]),
            None => exists|i: int|
                0 <= i < significant(text@).len() && !is_dates_char(
                    #[trigger] significant(text@)[i],
                ),
        },
{
    let all = chars_of(text);
    let n = all.len();
    let mut kept: Vec<char> = Vec::new();
    let mut i: usize = 0;
    proof {
        text@.take(0).lemma_filter_len(not_whitespace());
    }
    while i < n
        invariant
            i <= n,
            n == all@.len(),
            all@ == text@,
            kept@ == significant(text@.take(i as int)),
            forall|j: int| 0 <= j < kept@.len() ==> is_dates_char(#[trigger] kept@[j]),
        decreases n - i,
    {
        let c = all[i];
        proof {
            text@.take(i as int).lemma_filter_push(c, not_whitespace());
            assert(text@.take(i as int).push(c) =~= text@.take(i + 1));
        }
        if !c.is_whitespace() {
            if c == ',' || c == '/' || c == '-' || c.is_numeric() {
                kept.push(c);
            } else {
                proof {
                    text@.lemma_filter_contains(not_whitespace(), i as int);
                    let k = choose|k: int|
                        0 <= k < significant(text@).len() && significant(text@)[k] == c;
                    assert(!is_dates_char(significant(text@)[k]));
                }
                return None;
            }
        }
        i += 1;
    }
    proof {
        assert(text@.take(n as int) =~= text@);
    }
    Some(kept)
}

/// Reads a dates field: the dates and ranges it lists, in the year given.
pub fn parse_dates(text: &str, year: i32) -> (r: Option<Vec<DateComponent>>)
    ensures
        is_dates_of(r, text@, year as int),
        r matches Some(v) ==> forall|i: int| 0 <= i < v@.len() ==> (#[trigger] v@[i]).wf(),
{
    let s = match significant_chars(text) {
        Some(s) => s,
        None => {
            return None;
        },
    };
    let n = s.len();
    let ghost parts = split_commas(s@);
    let ghost mut done: Seq<Seq<char>> = Seq::empty();
    let mut found: Vec<DateComponent> = Vec::new();
    let mut from: usize = 0;
    let mut i: usize = 0;
    proof {
        assert(s@.skip(0) =~= s@);
    }
    while i < n
        invariant
            from <= i <= n,
            n == s@.len(),
            s@ == significant(text@),
            parts == split_commas(s@),
            forall|j: int| from <= j < i ==> s@[j] != ',',
            parts == done + split_commas(s@.skip(from as int)),
            found@.len() == done.len(),
            forall|k: int| 0 <= k < found@.len() ==> (#[trigger] found@[k]).wf(),
            forall|k: int|
                0 <= k < done.len() ==> component_of(#[trigger] done[k], year as int) == Some(
                    found@[k],
                ),
        decreases n - i,
    {
        if s[i] == ',' {
            let ghost rest = s@.skip(from as int);
            let ghost piece = s@.subrange(from as int, i as int);
            proof {
                lemma_first_position_is(rest, ',', i - from);
                assert(rest.take(i - from) =~= piece);
                assert(rest.skip(i - from + 1) =~= s@.skip(i + 1));
                assert(parts =~= done.push(piece) + split_commas(s@.skip(i + 1)));
                assert(parts[done.len() as int] == piece);
            }
            match parse_component(slice_subrange(s.as_slice(), from, i), year) {
                None => {
                    return None;
                },
                Some(component) => {
                    found.push(component);
                    proof {
                        done = done.push(piece);
                    }
                },
            }
            from = i + 1;
        }
        i += 1;
    }
    if from < n {
        let ghost rest = s@.skip(from as int);
        proof {
            lemma_first_position_is(rest, ',', n - from);
            assert(rest =~= s@.subrange(from as int, n as int));
            assert(parts =~= done.push(rest));
            assert(parts[done.len() as int] == rest);
        }
        match parse_component(slice_subrange(s.as_slice(), from, n), year) {
            None => {
                return None;
            },
            Some(component) => {
                found.push(component);
                proof {
                    done = done.push(rest);
                }
            },
        }
    } else {
        proof {
            assert(parts =~= done);
        }
    }
    proof {
        assert(parts =~= done);
        assert(found@ =~= Seq::new(parts.len(), |i: int| component_of(parts[i], year as int)->0));
    }
    Some(found)
}

/// A dates field read twice in one year reads the same both times: whatever
/// two readings give, they agree on whether the field has a meaning and on
/// every component of it.
pub proof fn lemma_dates_read_alike(
    text: Seq<char>,
    year: int,
    first: Option<Vec<DateComponent>>,
    second: Option<Vec<DateComponent>>,
)
    requires
        is_dates_of(first, text, year),
        is_dates_of(second, text, year),
    ensures
        first is Some <==> second is Some,
        first is Some ==> first->0@ == second->0@,
{
}

/// A comma after the last component adds no component: a field that does
/// not end in a comma keeps its pieces when one is put at its end.
pub proof fn lemma_trailing_comma(s: Seq<char>)
    requires
        s.len() > 0,
        s.last() != ',',
    ensures
        split_commas(s.push(',')) == split_commas(s),
    decreases s.len(),
{
    let longer = s.push(',');
    let comma = first_position(s, ',');
    lemma_first_position(s, ',');
    assert forall|j: int| 0 <= j < comma implies longer[j] != ',' by {
        assert(longer[j] == s[j]);
    }
    lemma_first_position_is(longer, ',', comma);
    assert(longer.take(comma) =~= s.take(comma));
    if comma < s.len() {
        let rest = s.skip(comma + 1);
        assert(longer.skip(comma + 1) =~= rest.push(','));
        assert(rest.last() == s.last());
        lemma_trailing_comma(rest);
    } else {
        assert(longer.skip(comma + 1) =~= Seq::<char>::empty());
        assert(split_commas(longer.skip(comma + 1)) =~= Seq::<Seq<char>>::empty());
        assert(s.take(comma) =~= s);
        assert(split_commas(longer) =~= seq![s]);
    }
}

/// A dates field that ends in a component means the same with a comma put
/// at its end.
pub proof fn lemma_trailing_comma_adds_nothing(text: Seq<char>, year: int)
    requires
        significant(text).len() > 0,
        significant(text).last() != ',',
    ensures
        date_components(text.push(','), year) == date_components(text, year),
{
    let s = significant(text);
    let longer = significant(text.push(','));
    text.lemma_filter_push(',', not_whitespace());
    assert(longer == s.push(','));
    lemma_trailing_comma(s);
    if forall|i: int| 0 <= i < s.len() ==> is_dates_char(#[trigger] s[i]) {
        assert forall|i: int| 0 <= i < longer.len() implies is_dates_char(#[trigger] longer[i]) by {
            if i < s.len() {
                assert(longer[i] == s[i]);
            }
        }
    } else {
        let i = choose|i: int| 0 <= i < s.len() && !is_dates_char(#[trigger] s[i]);
        assert(longer[i] == s[i]);
    }
}

/// A token with a character that is neither a digit nor a slash nor a plus
/// sign names no date.
pub proof fn lemma_token_rejected(token: Seq<char>, j: int, year: int)
    requires
        0 <= j < token.len(),
        token[j] != '/',
        token[j] != '+',
        !is_digit_char(token[j]),
    ensures
        date_of_token(token, year) is None,
{
    let slash = first_position(token, '/');
    lemma_first_position(token, '/');
    if slash < token.len() {
        let field = if j < slash {
            token.take(slash)
        } else {
            token.skip(slash + 1)
        };
        let at = if j < slash {
            j
        } else {
            j - slash - 1
        };
        assert(field[at] == token[j]);
        let digits = if field[0] == '+' {
            field.skip(1)
        } else {
            field
        };
        let shifted = if field[0] == '+' {
            at - 1
        } else {
            at
        };
        assert(digits[shifted] == token[j]);
        assert(!all_digits(digits));
    }
}

/// A component with a character that is neither a digit nor a slash nor a
/// dash nor a plus sign names nothing.
pub proof fn lemma_component_rejected(component: Seq<char>, j: int, year: int)
    requires
        0 <= j < component.len(),
        component[j] != '/',
        component[j] != '-',
        component[j] != '+',
        !is_digit_char(component[j]),
    ensures
        component_of(component, year) is None,
{
    let dash = first_position(component, '-');
    lemma_first_position(component, '-');
    if j < dash {
        assert(start_token(component)[j] == component[j]);
        lemma_token_rejected(start_token(component), j, year);
    } else {
        let after = component.skip(dash + 1);
        assert(after[j - dash - 1] == component[j]);
        after.lemma_filter_contains(not_dash(), j - dash - 1);
        let token = end_token(component);
        let at = choose|at: int| 0 <= at < token.len() && token[at] == component[j];
        lemma_token_rejected(token, at, year);
    }
}

/// Every character but the comma stands in one of the pieces between the
/// commas.
pub proof fn lemma_split_covers(s: Seq<char>, k: int) -> (place: (int, int))
    requires
        0 <= k < s.len(),
        s[k] != ',',
    ensures
        0 <= place.0 < split_commas(s).len(),
        0 <= place.1 < split_commas(s)[place.0].len(),
        split_commas(s)[place.0][place.1] == s[k],
    decreases s.len(),
{
    let comma = first_position(s, ',');
    lemma_first_position(s, ',');
    if k < comma {
        (0, k)
    } else {
        let rest = s.skip(comma + 1);
        assert(rest[k - comma - 1] == s[k]);
        let inner = lemma_split_covers(rest, k - comma - 1);
        assert(split_commas(s)[inner.0 + 1] == split_commas(rest)[inner.0]);
        (inner.0 + 1, inner.1)
    }
}

/// A dates field with a character that is neither whitespace nor a digit nor
/// one of the comma, the dash and the slash has no meaning.
pub proof fn lemma_foreign_char_rejected(text: Seq<char>, i: int, year: int)
    requires
        0 <= i < text.len(),
        !is_whitespace_char(text[i]),
        !is_digit_char(text[i]),
        text[i] != ',' && text[i] != '-' && text[i] != '/',
    ensures
        date_components(text, year) is None,
{
    let c = text[i];
    let s = significant(text);
    text.lemma_filter_contains(not_whitespace(), i);
    let k = choose|k: int| 0 <= k < s.len() && s[k] == c;
    if is_dates_char(c) {
        let place = lemma_split_covers(s, k);
        lemma_component_rejected(split_commas(s)[place.0], place.1, year);
    } else {
        assert(!is_dates_char(s[k]));
    }
}

/// A dates field with a letter of the Latin alphabet has no meaning.
pub proof fn lemma_letter_rejected(text: Seq<char>, i: int, year: int)
    requires
        0 <= i < text.len(),
        ('a' <= text[i] && text[i] <= 'z') || ('A' <= text[i] && text[i] <= 'Z'),
    ensures
        date_components(text, year) is None,
{
    lemma_foreign_char_rejected(text, i, year);
}

/// A dates field has no meaning if one of its tokens has more than two
/// characters before its first slash.
pub proof fn lemma_long_day_rejected(text: Seq<char>, k: int, year: int)
    requires
        0 <= k < split_commas(significant(text)).len(),
        ({
            let component = split_commas(significant(text))[k];
            ||| first_position(start_token(component), '/') > 2
            ||| is_range(component) && first_position(end_token(component), '/') > 2
        }),
    ensures
        date_components(text, year) is None,
{
    let component = split_commas(significant(text))[k];
    assert(component_of(component, year) is None);
}

} // verus!
