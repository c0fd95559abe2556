//! What the character display shows: four status lines, cut or filled to the
//! display's width and laid out on one screen of four rows or two screens of
//! two.

use vstd::prelude::*;
use crate::cadence::{ConfigError, Interval};
use crate::circuit_data::{Circuit_Data, CircuitState, Snapshot};
use crate::decimal::fixed2_text;
use crate::text::{append_str, chars_of, text_of};

verus! {

/// How many seconds a screen is held unless told otherwise.
pub const DEFAULT_UPDATE_DELAY: u8 = 2;

/// The uptime as the display shows it: the two characters of the hours, of
/// the minutes and of the seconds, taken from where they stand in
/// `HH:MM:SS`. An uptime too short to hold them, such as the placeholder, is
/// shown as zero.
pub open spec fn clock_text(uptime: Seq<char>) -> Seq<char> {
    if uptime.len() >= 8 {
        uptime.subrange(0, 2) + seq![':'] + uptime.subrange(3, 5) + seq![':'] + uptime.subrange(
            6,
            8,
        )
    } else {
        "00:00:00"@
    }
}

/// The four status lines, before they are fitted to the display.
pub open spec fn status_lines(s: Snapshot) -> Seq<Seq<char>> {
    let time = "[Time]: "@ + clock_text(s.circuit_uptime);
    match s.circuit_state {
        CircuitState::Off => seq!["[Exp. V]: [OFF]"@, "[V]: [OFF]"@, "[I]: [OFF]"@, time],
        CircuitState::On => seq![
            "[Exp. V]: "@ + fixed2_text(s.expected_voltage) + " V"@,
            "[V]: "@ + fixed2_text(s.circuit_voltage) + " V"@,
            "[I]: "@ + fixed2_text(s.circuit_current) + " mA"@,
            time,
        ],
    }
}

/// A line at exactly `columns` characters: cut where it is longer, filled
/// with blanks where it is shorter.
pub open spec fn fitted(line: Seq<char>, columns: nat) -> Seq<char> {
    if line.len() >= columns {
        line.take(columns as int)
    } else {
        line + Seq::new((columns - line.len()) as nat, |i: int| ' ')
    }
}

/// The screens that show a snapshot, one after the other, each a list of
/// lines from the top row down. A display of two rows gets two screens, one
/// of four rows a single screen.
pub open spec fn screens_of(rows: u8, columns: u8, s: Snapshot) -> Seq<Seq<Seq<char>>> {
    let lines = status_lines(s);
    let a = fitted(lines[0], columns as nat);
    let b = fitted(lines[1], columns as nat);
    let c = fitted(lines[2], columns as nat);
    let d = fitted(lines[3], columns as nat);
    if rows == 2 {
        seq![seq![a, b], seq![c, d]]
    } else {
        seq![seq![a, b, c, d]]
    }
}

/// How many screens it takes to show a snapshot.
pub open spec fn screen_count(rows: u8) -> nat {
    if rows == 2 {
        2
    } else {
        1
    }
}

/// Two rows take two screens and four rows one, whatever is shown, and every
/// line on them is as wide as the display.
pub proof fn lemma_screens_fill_display(rows: u8, columns: u8, s: Snapshot)
    requires
        rows == 2 || rows == 4,
    ensures
        screens_of(rows, columns, s).len() == screen_count(rows),
        forall|i: int, j: int|
            0 <= i < screens_of(rows, columns, s).len() && 0 <= j < screens_of(
                rows,
                columns,
                s,
            )[i].len() ==> (#[trigger] screens_of(rows, columns, s)[i][j]).len() == columns,
        forall|i: int|
            0 <= i < screens_of(rows, columns, s).len() ==> (#[trigger] screens_of(
                rows,
                columns,
                s,
            )[i]).len() == rows,
{
}

/// What is on the display at one time: its lines from the top row down, each
/// starting in the first column.
#[derive(Debug)]
pub struct Screen {
    pub lines: Vec<String>,
}

impl View for Screen {
    type V = Seq<Seq<char>>;

    open spec fn view(&self) -> Seq<Seq<char>> {
        Seq::new(self.lines@.len(), |i: int| self.lines@[i]@)
    }
}

/// The screens that the elements of `screens` hold.
pub open spec fn screen_views(screens: Seq<Screen>) -> Seq<Seq<Seq<char>>> {
    Seq::new(screens.len(), |i: int| screens[i]@)
}

/// The uptime as the display shows it.
pub fn clock_chars(uptime: &str) -> (out: Vec<char>)
    ensures
        out@ == clock_text(uptime@),
{
    let cs = chars_of(uptime);
    let mut out: Vec<char> = Vec::new();
    if cs.len() >= 8 {
        out.push(cs[0]);
        out.push(cs[1]);
        out.push(':');
        out.push(cs[3]);
        out.push(cs[4]);
        out.push(':');
        out.push(cs[6]);
        out.push(cs[7]);
        assert(out@ =~= clock_text(uptime@));
    } else {
        append_str(&mut out, "00:00:00");
        assert(out@ =~= clock_text(uptime@));
    }
    out
}

/// `line` at exactly `columns` characters.
pub fn fit(line: &Vec<char>, columns: u8) -> (out: String)
    ensures
        out@ == fitted(line@, columns as nat),
{
    let width: usize = columns as usize;
    let mut shown: Vec<char> = Vec::new();
    let mut i: usize = 0;
    while i < width
        invariant
            i <= width,
            width == columns,
            shown@ == fitted(line@, columns as nat).take(i as int),
        decreases width - i,
    {
        if i < line.len() {
            shown.push(line[i]);
        } else {
            shown.push(' ');
        }
        assert(shown@ =~= fitted(line@, columns as nat).take(i + 1));
        i = i + 1;
    }
    assert(shown@ =~= fitted(line@, columns as nat));
    text_of(&shown)
}

/// One status line: a label, a number with two decimals and a unit.
fn measured_line(label: &str, value: &crate::decimal::Decimal, unit: &str) -> (out: Vec<char>)
    ensures
        out@ == label@ + fixed2_text(value@) + unit@,
{
    let mut out: Vec<char> = Vec::new();
    append_str(&mut out, label);
    let number = value.to_fixed2();
    append_str(&mut out, number.as_str());
    append_str(&mut out, unit);
    out
}

/// One status line that holds a fixed text.
fn fixed_line(text: &str) -> (out: Vec<char>)
    ensures
        out@ == text@,
{
    chars_of(text)
}

/// A display of two or four rows, and a width in columns.
#[allow(non_camel_case_types)]
#[derive(Debug)]
pub struct LCD_Display_impl {
    columns: u8,
    rows: u8,
}

impl LCD_Display_impl {
    #[verifier::type_invariant]
    spec fn supported(self) -> bool {
        self.rows == 2 || self.rows == 4
    }

    /// The width of the display.
    pub closed spec fn columns(self) -> u8 {
        self.columns
    }

    /// The number of rows of the display.
    pub closed spec fn rows(self) -> u8 {
        self.rows
    }

    /// A display of `rows` rows and `columns` columns. Only two and four rows
    /// are supported; any other number is refused here, once, so that no
    /// refresh has to deal with it.
    pub fn new(columns: u8, rows: u8) -> (out: Result<LCD_Display_impl, ConfigError>)
        ensures
            out is Ok <==> rows == 2 || rows == 4,
            out matches Ok(display) ==> display.columns() == columns && display.rows() == rows,
            out matches Err(e) ==> e == ConfigError::UnsupportedGeometry,
    {
        if rows == 2 || rows == 4 {
            Ok(LCD_Display_impl { columns, rows })
        } else {
            Err(ConfigError::UnsupportedGeometry)
        }
    }

    pub fn get_columns(&self) -> (columns: u8)
        ensures
            columns == self.columns(),
    {
        self.columns
    }

    pub fn get_rows(&self) -> (rows: u8)
        ensures
            rows == self.rows(),
            rows == 2 || rows == 4,
    {
        proof {
            use_type_invariant(self);
        }
        self.rows
    }

    /// How many seconds it takes to show everything once when each screen
    /// is held for `hold`: twice as long on two rows as on four.
    pub fn cycle_seconds(&self, hold: Interval) -> (seconds: u16)
        ensures
            seconds == screen_count(self.rows()) * hold.secs(),
    {
        proof {
            use_type_invariant(self);
        }
        let held: u16 = hold.seconds() as u16;
        if self.rows == 2 {
            2 * held
        } else {
            held
        }
    }

    /// The four status lines for `data`, each fitted to the display's width.
    pub fn lines(&self, data: &Circuit_Data) -> (out: Vec<String>)
        ensures
            out@.len() == 4,
            forall|i: int|
                0 <= i < 4 ==> (#[trigger] out@[i])@ == fitted(
                    status_lines(data@)[i],
                    self.columns() as nat,
                ),
    {
        let mut time: Vec<char> = Vec::new();
        append_str(&mut time, "[Time]: ");
        let clock = clock_chars(data.circuit_uptime.as_str());
        let mut k: usize = 0;
        while k < clock.len()
            invariant
                k <= clock.len(),
                time@ == "[Time]: "@ + clock@.take(k as int),
            decreases clock.len() - k,
        {
            time.push(clock[k]);
            assert(clock@.take(k as int).push(clock@[k as int]) =~= clock@.take(k + 1));
            k = k + 1;
        }
        assert(clock@.take(clock.len() as int) =~= clock@);
        let first: Vec<char>;
        let second: Vec<char>;
        let third: Vec<char>;
        match data.circuit_state {
            CircuitState::Off => {
                first = fixed_line("[Exp. V]: [OFF]");
                second = fixed_line("[V]: [OFF]");
                third = fixed_line("[I]: [OFF]");
            },
            CircuitState::On => {
                first = measured_line("[Exp. V]: ", &data.expected_voltage, " V");
                second = measured_line("[V]: ", &data.circuit_voltage, " V");
                third = measured_line("[I]: ", &data.circuit_current, " mA");
            },
        }
        let mut out: Vec<String> = Vec::new();
        out.push(fit(&first, self.columns));
        out.push(fit(&second, self.columns));
        out.push(fit(&third, self.columns));
        out.push(fit(&time, self.columns));
        out
    }

    /// The screens that show `data`, in the order in which they are shown.
    /// Each is held for one refresh period, so a display of two rows takes
    /// two periods to show everything.
    pub fn screens(&self, data: &Circuit_Data) -> (out: Vec<Screen>)
        ensures
            screen_views(out@) == screens_of(self.rows(), self.columns(), data@),
    {
        proof {
            use_type_invariant(self);
        }
        let mut lines = self.lines(data);
        let ghost all = lines@;
        let d = lines.pop().unwrap();
        let c = lines.pop().unwrap();
        let b = lines.pop().unwrap();
        let a = lines.pop().unwrap();
        assert(a == all[0] && b == all[1] && c == all[2] && d == all[3]);
        let mut out: Vec<Screen> = Vec::new();
        if self.rows == 2 {
            let mut top: Vec<String> = Vec::new();
            top.push(a);
            top.push(b);
            let mut bottom: Vec<String> = Vec::new();
            bottom.push(c);
            bottom.push(d);
            let first = Screen { lines: top };
            let second = Screen { lines: bottom };
            assert(first@ =~= seq![a@, b@]);
            assert(second@ =~= seq![c@, d@]);
            out.push(first);
            out.push(second);
            assert(screen_views(out@) =~= seq![first@, second@]);
        } else {
            let mut whole: Vec<String> = Vec::new();
            whole.push(a);
            whole.push(b);
            whole.push(c);
            whole.push(d);
            let only = Screen { lines: whole };
            assert(only@ =~= seq![a@, b@, c@, d@]);
            out.push(only);
            assert(screen_views(out@) =~= seq![only@]);
        }
        out
    }
}

} // verus!
