//! Laying out the values of the wave generator: comma-separated, ten to a
//! line, with a line break at the end.

use vstd::prelude::*;
use vstd::string::StringExecFns;

use crate::text::push_char;

verus! {

/// The values laid out: each followed by a comma, and by a line break after
/// every tenth.
pub open spec fn wave_values(values: Seq<Seq<char>>) -> Seq<char>
    decreases values.len(),
{
    if values.len() == 0 {
        Seq::empty()
    } else {
        let y = values.len() - 1;
        wave_values(values.drop_last()) + values.last() + seq![','] + (if y % 10 == 9 {
            seq!['\n']
        } else {
            Seq::empty()
        })
    }
}

/// The whole output of the wave generator: the values laid out, then a
/// line break.
pub open spec fn wave_text(values: Seq<Seq<char>>) -> Seq<char> {
    wave_values(values) + seq!['\n']
}

/// Lays out the wave values, already rendered as text, as `wave_text` says:
/// no values give a lone line break.
pub fn format_wave(values: &Vec<String>) -> (r: String)
    ensures
        r@ == wave_text(values@.map_values(|s: String| s@)),
{
    let ghost texts = values@.map_values(|s: String| s@);
    let mut out = String::new();
    let mut y: usize = 0;
    while y < values.len()
        invariant
            y <= values@.len(),
            texts == values@.map_values(|s: String| s@),
            out@ == wave_values(texts.take(y as int)),
        decreases values@.len() - y,
    {
        out.append(values[y].as_str());
        push_char(&mut out, ',');
        if y % 10 == 9 {
            push_char(&mut out, '\n');
        }
        proof {
            assert(texts.take(y + 1).drop_last() =~= texts.take(y as int));
        }
        y = y + 1;
    }
    proof {
        assert(texts.take(y as int) =~= texts);
    }
    push_char(&mut out, '\n');
    out
}

} // verus!
