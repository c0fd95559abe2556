//! The frame format of the serial line. A frame is one line of text whose
//! fields are separated by commas; white space around the line does not
//! count. Two fields are a heartbeat from a circuit that is off: the first is
//! ignored, the second is the uptime. Four fields are a measurement: expected
//! voltage, circuit voltage, circuit current, uptime.

use vstd::prelude::*;
use crate::circuit_data::{zero_number, CircuitState, Reading, ReadingView};
use crate::decimal::{
    fraction_part, has_sign, is_literal, lemma_point_index, number_of, point_index, unsigned_part,
    whole_part, Decimal,
};
use crate::digits::is_digit;
use crate::text::{
    chars_of, fields_clean, is_space, join, lemma_split_join, split, split_chars, text_of, trim,
    trim_chars, views,
};

verus! {

/// Why a text is no frame.
#[derive(Clone, Copy, Debug, PartialEq, Eq, Structural)]
pub enum ParseError {
    /// Neither two fields nor four, or a number that is no decimal literal.
    Malformed,
}

/// The fields of a frame.
pub open spec fn frame_fields(text: Seq<char>) -> Seq<Seq<char>> {
    split(trim(text), ',')
}

/// A frame of two fields.
pub open spec fn is_heartbeat(text: Seq<char>) -> bool {
    frame_fields(text).len() == 2
}

/// A frame of four fields whose first three are decimal literals.
pub open spec fn is_measurement(text: Seq<char>) -> bool {
    let fields = frame_fields(text);
    &&& fields.len() == 4
    &&& is_literal(fields[0])
    &&& is_literal(fields[1])
    &&& is_literal(fields[2])
}

/// A heartbeat or a measurement.
pub open spec fn is_frame(text: Seq<char>) -> bool {
    is_heartbeat(text) || is_measurement(text)
}

/// What a frame says. A heartbeat gives a circuit that is off, with every
/// number zero; its first field is not looked at. A measurement gives a
/// circuit that is on, with the three numbers as written. Either way the
/// uptime is the last field as it stands.
pub open spec fn reading_of(text: Seq<char>) -> ReadingView {
    let fields = frame_fields(text);
    if fields.len() == 2 {
        ReadingView {
            circuit_state: CircuitState::Off,
            expected_voltage: zero_number(),
            circuit_voltage: zero_number(),
            circuit_current: zero_number(),
            circuit_uptime: fields[1],
        }
    } else {
        ReadingView {
            circuit_state: CircuitState::On,
            expected_voltage: number_of(fields[0]),
            circuit_voltage: number_of(fields[1]),
            circuit_current: number_of(fields[2]),
            circuit_uptime: fields[3],
        }
    }
}

/// Reads one frame.
pub fn parse(text: &str) -> (out: Result<Reading, ParseError>)
    ensures
        out is Ok <==> is_frame(text@),
        out matches Ok(reading) ==> reading@ == reading_of(text@),
        out matches Err(e) ==> e == ParseError::Malformed,
{
    let cs = chars_of(text);
    let line = trim_chars(&cs);
    let fields = split_chars(&line, ',');
    let ghost expected_fields = frame_fields(text@);
    assert(views(fields@) == expected_fields);
    assert(fields@.len() == expected_fields.len());
    if fields.len() == 2 {
        assert(fields@[1]@ == expected_fields[1]);
        Ok(
            Reading {
                circuit_state: CircuitState::Off,
                expected_voltage: Decimal::zero(),
                circuit_voltage: Decimal::zero(),
                circuit_current: Decimal::zero(),
                circuit_uptime: text_of(&fields[1]),
            },
        )
    } else if fields.len() == 4 {
        assert(fields@[0]@ == expected_fields[0]);
        assert(fields@[1]@ == expected_fields[1]);
        assert(fields@[2]@ == expected_fields[2]);
        assert(fields@[3]@ == expected_fields[3]);
        let expected_voltage = match Decimal::parse_chars(&fields[0]) {
            Some(number) => number,
            None => { return Err(ParseError::Malformed); },
        };
        let circuit_voltage = match Decimal::parse_chars(&fields[1]) {
            Some(number) => number,
            None => { return Err(ParseError::Malformed); },
        };
        let circuit_current = match Decimal::parse_chars(&fields[2]) {
            Some(number) => number,
            None => { return Err(ParseError::Malformed); },
        };
        Ok(
            Reading {
                circuit_state: CircuitState::On,
                expected_voltage,
                circuit_voltage,
                circuit_current,
                circuit_uptime: text_of(&fields[3]),
            },
        )
    } else {
        Err(ParseError::Malformed)
    }
}

/// A decimal literal is not empty and holds nothing but digits, a sign and a
/// decimal point.
pub proof fn lemma_literal_chars(s: Seq<char>)
    requires
        is_literal(s),
    ensures
        s.len() >= 1,
        forall|i: int|
            0 <= i < s.len() ==> is_digit(#[trigger] s[i]) || s[i] == '.' || s[i] == '+' || s[i]
                == '-',
{
    let body = unsigned_part(s);
    lemma_point_index(body);
    let at = point_index(body);
    assert forall|i: int| 0 <= i < s.len() implies is_digit(#[trigger] s[i]) || s[i] == '.' || s[i]
        == '+' || s[i] == '-' by {
        let shift: int = if has_sign(s) {
            1
        } else {
            0
        };
        if i >= shift {
            let j = i - shift;
            assert(body[j] == s[i]);
            if j < at {
                assert(whole_part(body)[j] == body[j]);
            } else if j > at {
                assert(fraction_part(body)[j - at - 1] == body[j]);
            }
        }
    }
}

/// The four fields of a measurement, written with commas between them.
pub open spec fn measurement_text(
    expected: Seq<char>,
    voltage: Seq<char>,
    current: Seq<char>,
    uptime: Seq<char>,
) -> Seq<char> {
    join(seq![expected, voltage, current, uptime], ',')
}

/// A measurement that is written down and read again gives the circuit on,
/// the three numbers exactly as they were written, and the uptime as it
/// stood. The uptime may hold anything but a comma, and may not end in white
/// space, which would be taken for the end of the line.
pub proof fn lemma_measurement_round_trip(
    expected: Seq<char>,
    voltage: Seq<char>,
    current: Seq<char>,
    uptime: Seq<char>,
)
    requires
        is_literal(expected),
        is_literal(voltage),
        is_literal(current),
        forall|i: int| 0 <= i < uptime.len() ==> uptime[i] != ',',
        uptime.len() > 0 ==> !is_space(uptime.last()),
    ensures
        is_measurement(measurement_text(expected, voltage, current, uptime)),
        reading_of(measurement_text(expected, voltage, current, uptime)) == (ReadingView {
            circuit_state: CircuitState::On,
            expected_voltage: number_of(expected),
            circuit_voltage: number_of(voltage),
            circuit_current: number_of(current),
            circuit_uptime: uptime,
        }),
{
    let fields = seq![expected, voltage, current, uptime];
    let text = measurement_text(expected, voltage, current, uptime);
    lemma_literal_chars(expected);
    lemma_literal_chars(voltage);
    lemma_literal_chars(current);
    assert(fields_clean(fields, ',')) by {
        assert forall|i: int, j: int|
            0 <= i < fields.len() && 0 <= j < fields[i].len() implies #[trigger] fields[i][j]
            != ',' by {
            if i == 0 {
                assert(is_digit(expected[j]) || expected[j] == '.' || expected[j] == '+'
                    || expected[j] == '-');
            } else if i == 1 {
                assert(is_digit(voltage[j]) || voltage[j] == '.' || voltage[j] == '+' || voltage[j]
                    == '-');
            } else if i == 2 {
                assert(is_digit(current[j]) || current[j] == '.' || current[j] == '+' || current[j]
                    == '-');
            }
        }
    }
    lemma_split_join(fields, ',');
    assert(text == ((expected.push(',') + voltage).push(',') + current).push(',') + uptime) by {
        let three = fields.drop_last();
        let two = three.drop_last();
        let one = two.drop_last();
        assert(three =~= seq![expected, voltage, current]);
        assert(two =~= seq![expected, voltage]);
        assert(one =~= seq![expected]);
        assert(join(one, ',') == expected);
        assert(join(two, ',') == join(one, ',').push(',') + voltage);
        assert(join(three, ',') == join(two, ',').push(',') + current);
    }
    assert(text[0] == expected[0]);
    assert(is_digit(expected[0]) || expected[0] == '.' || expected[0] == '+' || expected[0] == '-');
    assert(!is_space(text[0]));
    assert(!is_space(text.last())) by {
        if uptime.len() > 0 {
            assert(text.last() == uptime.last());
        } else {
            assert(text.last() == ',');
        }
    }
    assert(trim(text) == text);
}

/// The two fields of a heartbeat, written with a comma between them.
pub open spec fn heartbeat_text(ignored: Seq<char>, uptime: Seq<char>) -> Seq<char> {
    join(seq![ignored, uptime], ',')
}

/// A heartbeat that is written down and read again gives the circuit off,
/// every number zero, and the uptime as it stood, whatever the first field
/// held. Neither field may hold a comma; the first may not start with white
/// space nor the second end in it.
pub proof fn lemma_heartbeat_round_trip(ignored: Seq<char>, uptime: Seq<char>)
    requires
        forall|i: int| 0 <= i < ignored.len() ==> ignored[i] != ',',
        forall|i: int| 0 <= i < uptime.len() ==> uptime[i] != ',',
        ignored.len() > 0 ==> !is_space(ignored[0]),
        uptime.len() > 0 ==> !is_space(uptime.last()),
    ensures
        is_heartbeat(heartbeat_text(ignored, uptime)),
        reading_of(heartbeat_text(ignored, uptime)) == (ReadingView {
            circuit_state: CircuitState::Off,
            expected_voltage: zero_number(),
            circuit_voltage: zero_number(),
            circuit_current: zero_number(),
            circuit_uptime: uptime,
        }),
{
    let fields = seq![ignored, uptime];
    let text = heartbeat_text(ignored, uptime);
    assert(fields_clean(fields, ','));
    lemma_split_join(fields, ',');
    assert(text == ignored.push(',') + uptime) by {
        let one = fields.drop_last();
        assert(one =~= seq![ignored]);
        assert(join(one, ',') == ignored);
    }
    assert(!is_space(text[0])) by {
        if ignored.len() > 0 {
            assert(text[0] == ignored[0]);
        } else {
            assert(text[0] == ',');
        }
    }
    assert(!is_space(text.last())) by {
        if uptime.len() > 0 {
            assert(text.last() == uptime.last());
        } else {
            assert(text.last() == ',');
        }
    }
    assert(trim(text) == text);
}

/// A text with one field, three, or more than four is no frame, and neither
/// is one of four fields with a number that is no decimal literal.
pub proof fn lemma_malformed(text: Seq<char>)
    ensures
        frame_fields(text).len() != 2 && frame_fields(text).len() != 4 ==> !is_frame(text),
        frame_fields(text).len() == 4 && (!is_literal(frame_fields(text)[0]) || !is_literal(
            frame_fields(text)[1],
        ) || !is_literal(frame_fields(text)[2])) ==> !is_frame(text),
{
}

} // verus!
