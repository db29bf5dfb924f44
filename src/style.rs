use vstd::prelude::*;
use crate::text::{
    chars_of, is_blank, lines_of, strip_cr, range_is_blank, range_starts_with, scan_lines, split_on,
    starts_with, str_equal,
};

verus! {

/// The names of the built-in perceptual gradients.
pub open spec fn builtin_palette(name: Seq<char>) -> bool {
    name == "viridis"@ || name == "magma"@ || name == "plasma"@ || name == "inferno"@
        || name == "turbo"@ || name == "cubehelix_default"@ || name == "rainbow"@
        || name == "spectral"@ || name == "sinebow"@
}

/// Whether `name` is one of the built-in gradients, whose styles need no style file.
pub fn is_builtin_palette(name: &str) -> (r: bool)
    ensures
        r == builtin_palette(name@),
{
    str_equal(name, "viridis") || str_equal(name, "magma") || str_equal(name, "plasma")
        || str_equal(name, "inferno") || str_equal(name, "turbo")
        || str_equal(name, "cubehelix_default") || str_equal(name, "rainbow")
        || str_equal(name, "spectral") || str_equal(name, "sinebow")
}

/// The five comma-separated fields of a colour-stop line, as text:
/// `value,red,green,blue,alpha`.
#[derive(Debug, Clone)]
pub struct StopFields {
    pub value: String,
    pub red: String,
    pub green: String,
    pub blue: String,
    pub alpha: String,
}

impl StopFields {
    pub open spec fn view(&self) -> Seq<Seq<char>> {
        seq![self.value@, self.red@, self.green@, self.blue@, self.alpha@]
    }
}

/// Comment lines (`#`), directives (`INTERPOLATION`) and blank lines carry no stop.
pub open spec fn is_skipped_line(l: Seq<char>) -> bool {
    starts_with(l, "#"@) || starts_with(l, "INTERPOLATION"@) || is_blank(l)
}

/// The first five fields of a line that carries a stop; lines that are skipped
/// or have fewer than five fields carry none.
pub open spec fn stop_fields_of_line(l: Seq<char>) -> Option<Seq<Seq<char>>> {
    if is_skipped_line(l) || split_on(l, ',').len() < 5 {
        None
    } else {
        Some(split_on(l, ',').take(5))
    }
}

/// The stop fields of each line that carries a stop, in order.
pub open spec fn stop_fields_of_lines(ls: Seq<Seq<char>>) -> Seq<Seq<Seq<char>>>
    decreases ls.len(),
{
    if ls.len() == 0 {
        Seq::empty()
    } else {
        let acc = stop_fields_of_lines(ls.drop_last());
        match stop_fields_of_line(ls.last()) {
            Some(f) => acc.push(f),
            None => acc,
        }
    }
}

pub open spec fn opt_fields_view(f: Option<StopFields>) -> Option<Seq<Seq<char>>> {
    match f {
        Some(f) => Some(f.view()),
        None => None,
    }
}

pub open spec fn fields_view(rows: Seq<StopFields>) -> Seq<Seq<Seq<char>>> {
    rows.map_values(|f: StopFields| f.view())
}

/// Where each piece of `split_on(s.take(j), ',')` lies in `s`, given the
/// positions of the commas before `j`.
spec fn cuts_match(s: Seq<char>, j: int, cuts: Seq<usize>) -> bool {
    let p = split_on(s.take(j), ',');
    &&& p.len() == cuts.len() + 1
    &&& forall|k: int| 0 <= k < cuts.len() ==> cuts[k] < j && s[cuts[k] as int] == ','
    &&& forall|k: int| 0 < k < cuts.len() ==> cuts[k - 1] < #[trigger] cuts[k]
    &&& forall|k: int|
        0 <= k < p.len() ==> #[trigger] p[k] == s.subrange(
            if k == 0 { 0 } else { cuts[k - 1] + 1 },
            if k == cuts.len() { j } else { cuts[k] as int },
        )
}

/// The positions of the commas in `chars[from..to]`, relative to `from`.
fn comma_cuts(chars: &Vec<char>, from: usize, to: usize) -> (cuts: Vec<usize>)
    requires
        from <= to <= chars@.len(),
    ensures
        cuts_match(chars@.subrange(from as int, to as int), (to - from) as int, cuts@),
{
    let ghost s = chars@.subrange(from as int, to as int);
    let mut cuts: Vec<usize> = Vec::new();
    let mut j: usize = 0;
    assert(s.take(0) =~= Seq::<char>::empty());
    assert(cuts_match(s, 0, cuts@)) by {
        let p = split_on(s.take(0), ',');
        assert(p[0] =~= s.subrange(0, 0));
    }
    while j < to - from
        invariant
            from <= to <= chars@.len(),
            s == chars@.subrange(from as int, to as int),
            j <= to - from,
            cuts_match(s, j as int, cuts@),
        decreases to - from - j,
    {
        let c = chars[from + j];
        let ghost p = split_on(s.take(j as int), ',');
        let ghost old_cuts = cuts@;
        assert(s.take(j + 1).drop_last() =~= s.take(j as int));
        assert(s.take(j + 1).last() == c);
        if c == ',' {
            cuts.push(j);
            proof {
                let q = split_on(s.take(j + 1), ',');
                assert(q == p.push(Seq::<char>::empty()));
                assert forall|k: int| 0 <= k < q.len() implies #[trigger] q[k] == s.subrange(
                    if k == 0 { 0 } else { cuts@[k - 1] + 1 },
                    if k == cuts@.len() { j + 1 } else { cuts@[k] as int },
                ) by {
                    if k < p.len() {
                        assert(q[k] == p[k]);
                        assert(cuts@[k] == j || cuts@[k] == old_cuts[k]);
                    } else {
                        assert(q[k] =~= s.subrange(j + 1, j + 1));
                    }
                }
            }
        } else {
            proof {
                let q = split_on(s.take(j + 1), ',');
                let last = p.len() - 1;
                assert(q == p.update(last, p.last().push(c)));
                assert forall|k: int| 0 <= k < q.len() implies #[trigger] q[k] == s.subrange(
                    if k == 0 { 0 } else { cuts@[k - 1] + 1 },
                    if k == cuts@.len() { j + 1 } else { cuts@[k] as int },
                ) by {
                    if k < last {
                        assert(q[k] == p[k]);
                    } else {
                        let lo = if k == 0 { 0 } else { cuts@[k - 1] + 1 };
                        assert(p[k] == s.subrange(lo, j as int));
                        assert(q[k] =~= s.subrange(lo, j + 1));
                    }
                }
            }
        }
        j = j + 1;
    }
    assert(s.take((to - from) as int) =~= s);
    cuts
}

/// The text of `chars[from..to]` as a string, taken from `text`.
fn piece(text: &str, chars: &Vec<char>, from: usize, to: usize) -> (r: String)
    requires
        chars@ == text@,
        from <= to <= chars@.len(),
    ensures
        r@ == chars@.subrange(from as int, to as int),
{
    String::from_str(text.substring_char(from, to))
}

/// The stop fields of the line `chars[from..to]`, if it carries a stop.
#[verifier::spinoff_prover]
#[verifier::rlimit(40)]
fn line_stop_fields(text: &str, chars: &Vec<char>, from: usize, to: usize) -> (r: Option<
    StopFields,
>)
    requires
        chars@ == text@,
        from <= to <= chars@.len(),
    ensures
        opt_fields_view(r) == stop_fields_of_line(chars@.subrange(from as int, to as int)),
{
    let ghost l = chars@.subrange(from as int, to as int);
    if range_starts_with(chars, from, to, "#") || range_starts_with(chars, from, to, "INTERPOLATION")
        || range_is_blank(chars, from, to) {
        return None;
    }
    let cuts = comma_cuts(chars, from, to);
    assert(l.take(l.len() as int) =~= l);
    if cuts.len() < 4 {
        return None;
    }
    let end4 = if cuts.len() > 4 {
        cuts[4]
    } else {
        to - from
    };
    let f = StopFields {
        value: piece(text, chars, from, from + cuts[0]),
        red: piece(text, chars, from + cuts[0] + 1, from + cuts[1]),
        green: piece(text, chars, from + cuts[1] + 1, from + cuts[2]),
        blue: piece(text, chars, from + cuts[2] + 1, from + cuts[3]),
        alpha: piece(text, chars, from + cuts[3] + 1, from + end4),
    };
    proof {
        let p = split_on(l, ',');
        assert(l.take(l.len() as int) =~= l);
        assert(p[0] == l.subrange(0, cuts@[0] as int));
        assert(p[1] == l.subrange(cuts@[0] + 1, cuts@[1] as int));
        assert(p[2] == l.subrange(cuts@[1] + 1, cuts@[2] as int));
        assert(p[3] == l.subrange(cuts@[2] + 1, cuts@[3] as int));
        assert(p[4] == l.subrange(cuts@[3] + 1, end4 as int));
        assert(f.value@ =~= p[0]);
        assert(f.red@ =~= p[1]);
        assert(f.green@ =~= p[2]);
        assert(f.blue@ =~= p[3]);
        assert(f.alpha@ =~= p[4]);
        assert(f.view() =~= p.take(5));
    }
    Some(f)
}

/// The stop fields of every line of a style file's text that carries a stop,
/// in file order.
pub fn style_stop_fields(text: &str) -> (r: Vec<StopFields>)
    ensures
        fields_view(r@) == stop_fields_of_lines(lines_of(text@)),
{
    let chars = chars_of(text);
    let n = chars.len();
    let mut r: Vec<StopFields> = Vec::new();
    let mut start: usize = 0;
    let mut i: usize = 0;
    assert(chars@.take(0) =~= Seq::<char>::empty());
    assert(fields_view(r@) =~= Seq::empty());
    while i < n
        invariant
            chars@ == text@,
            n == chars@.len(),
            start <= i <= n,
            scan_lines(chars@.take(i as int)).1 == chars@.subrange(start as int, i as int),
            fields_view(r@) == stop_fields_of_lines(scan_lines(chars@.take(i as int)).0),
        decreases n - i,
    {
        let ghost before = scan_lines(chars@.take(i as int));
        assert(chars@.take(i + 1).drop_last() =~= chars@.take(i as int));
        if chars[i] == '\n' {
            let end = if i > start && chars[i - 1] == '\r' {
                i - 1
            } else {
                i
            };
            assert(strip_cr(before.1) =~= chars@.subrange(start as int, end as int));
            let fields = line_stop_fields(text, &chars, start, end);
            proof {
                let done = before.0.push(strip_cr(before.1));
                assert(done.drop_last() =~= before.0);
            }
            match fields {
                Some(f) => {
                    r.push(f);
                    assert(fields_view(r@) =~= fields_view(r@.drop_last()).push(f.view()));
                    assert(r@.drop_last() =~= r@.take(r@.len() - 1));
                },
                None => {},
            }
            start = i + 1;
            i = i + 1;
            assert(chars@.subrange(start as int, i as int) =~= Seq::<char>::empty());
        } else {
            i = i + 1;
            assert(chars@.subrange(start as int, i as int) =~= before.1.push(chars@[i - 1]));
        }
    }
    assert(chars@.take(n as int) =~= chars@);
    if start < n {
        let fields = line_stop_fields(text, &chars, start, n);
        proof {
            let (done, cur) = scan_lines(chars@);
            assert(done.push(cur).drop_last() =~= done);
        }
        match fields {
            Some(f) => {
                r.push(f);
                assert(fields_view(r@) =~= fields_view(r@.drop_last()).push(f.view()));
            },
            None => {},
        }
    }
    r
}

/// Why a field of a colour stop could not be read as a number.
#[derive(Debug, Clone, Copy, PartialEq, Eq, Structural)]
pub enum NumberError {
    /// The field is empty.
    Empty,
    /// A character is not a decimal digit.
    InvalidDigit,
    /// The number does not fit in a byte.
    TooLarge,
    /// The field is not a float literal.
    InvalidFloat,
}

/// The fields of a colour stop, in the order in which they are read.
#[derive(Debug, Clone, Copy, PartialEq, Eq, Structural)]
pub enum StopField {
    Value,
    Red,
    Green,
    Blue,
    Alpha,
}

/// A style file holds a field that is not a number of the right kind.
#[derive(Debug, Clone, Copy, PartialEq, Eq, Structural)]
pub struct StyleError {
    pub field: StopField,
    pub error: NumberError,
}

pub open spec fn is_digit(c: char) -> bool {
    '0' <= c && c <= '9'
}

/// Reading decimal digits from left to right into a byte: the first character
/// that is no digit, or the first digit that makes the number exceed 255,
/// decides the error.
pub open spec fn digits_to_u8(d: Seq<char>) -> Result<u8, NumberError>
    decreases d.len(),
{
    if d.len() == 0 {
        Ok(0u8)
    } else {
        match digits_to_u8(d.drop_last()) {
            Err(e) => Err(e),
            Ok(v) => if !is_digit(d.last()) {
                Err(NumberError::InvalidDigit)
            } else if v * 10 + (d.last() as int - '0' as int) > 255 {
                Err(NumberError::TooLarge)
            } else {
                Ok((v * 10 + (d.last() as int - '0' as int)) as u8)
            },
        }
    }
}

/// A byte written in decimal, as `str::parse::<u8>` reads it: an optional `+`
/// and then at least one digit.
pub open spec fn parse_u8_spec(s: Seq<char>) -> Result<u8, NumberError> {
    if s.len() == 0 {
        Err(NumberError::Empty)
    } else if s[0] == '+' {
        if s.len() == 1 {
            Err(NumberError::InvalidDigit)
        } else {
            digits_to_u8(s.drop_first())
        }
    } else {
        digits_to_u8(s)
    }
}

/// Reads a byte written in decimal.
pub fn parse_u8(s: &str) -> (r: Result<u8, NumberError>)
    ensures
        r == parse_u8_spec(s@),
{
    let chars = chars_of(s);
    let n = chars.len();
    if n == 0 {
        return Err(NumberError::Empty);
    }
    let first: usize = if chars[0] == '+' {
        if n == 1 {
            return Err(NumberError::InvalidDigit);
        }
        1
    } else {
        0
    };
    let ghost d = chars@.subrange(first as int, n as int);
    assert(first == 1 ==> d =~= s@.drop_first());
    assert(first == 0 ==> d =~= s@);
    assert(parse_u8_spec(s@) == digits_to_u8(d));
    let mut v: u8 = 0;
    let mut i: usize = first;
    assert(d.take(0) =~= Seq::<char>::empty());
    while i < n
        invariant
            chars@ == s@,
            n == chars@.len(),
            first <= i <= n,
            d == chars@.subrange(first as int, n as int),
            parse_u8_spec(s@) == digits_to_u8(d),
            digits_to_u8(d.take(i - first)) == Ok::<u8, NumberError>(v),
        decreases n - i,
    {
        let c = chars[i];
        assert(d.take(i - first + 1).drop_last() =~= d.take(i - first));
        assert(d.take(i - first + 1).last() == c);
        if !('0' <= c && c <= '9') {
            assert(d.take(d.len() as int) =~= d);
            assert(digits_to_u8(d.take(i - first + 1)) == Err::<u8, NumberError>(
                NumberError::InvalidDigit,
            ));
            proof { lemma_digits_error_sticks(d, (i - first + 1) as nat); }
            return Err(NumberError::InvalidDigit);
        }
        let digit = (c as u32 - '0' as u32) as u8;
        if v > 25 || (v == 25 && digit > 5) {
            assert(digits_to_u8(d.take(i - first + 1)) == Err::<u8, NumberError>(
                NumberError::TooLarge,
            ));
            proof { lemma_digits_error_sticks(d, (i - first + 1) as nat); }
            return Err(NumberError::TooLarge);
        }
        v = v * 10 + digit;
        i = i + 1;
    }
    assert(d.take(d.len() as int) =~= d);
    Ok(v)
}

/// Once the digits read so far give an error, the whole field gives it.
proof fn lemma_digits_error_sticks(d: Seq<char>, k: nat)
    requires
        k <= d.len(),
        digits_to_u8(d.take(k as int)) is Err,
    ensures
        digits_to_u8(d) == digits_to_u8(d.take(k as int)),
    decreases d.len() - k,
{
    if k < d.len() {
        assert(d.take(k as int + 1).drop_last() =~= d.take(k as int));
        lemma_digits_error_sticks(d, k + 1);
    } else {
        assert(d.take(k as int) =~= d);
    }
}

/// A colour stop read from a style file: its value as written, and its colour.
#[derive(Debug, Clone)]
pub struct StyleStop {
    pub value: String,
    pub red: u8,
    pub green: u8,
    pub blue: u8,
    pub alpha: u8,
}

impl StyleStop {
    pub open spec fn view(&self) -> (Seq<char>, u8, u8, u8, u8) {
        (self.value@, self.red, self.green, self.blue, self.alpha)
    }
}

/// One stop from its five fields, where `value_ok` tells whether the value field
/// is a float literal. Fields are checked in order, and the first bad one decides.
pub open spec fn stop_of_fields(f: Seq<Seq<char>>, value_ok: bool) -> Result<
    (Seq<char>, u8, u8, u8, u8),
    StyleError,
> {
    if !value_ok {
        Err(
            StyleError {
                field: StopField::Value,
                error: if f[0].len() == 0 {
                    NumberError::Empty
                } else {
                    NumberError::InvalidFloat
                },
            },
        )
    } else {
        match (parse_u8_spec(f[1]), parse_u8_spec(f[2]), parse_u8_spec(f[3]), parse_u8_spec(f[4])) {
            (Err(e), _, _, _) => Err(StyleError { field: StopField::Red, error: e }),
            (Ok(_), Err(e), _, _) => Err(StyleError { field: StopField::Green, error: e }),
            (Ok(_), Ok(_), Err(e), _) => Err(StyleError { field: StopField::Blue, error: e }),
            (Ok(_), Ok(_), Ok(_), Err(e)) => Err(StyleError { field: StopField::Alpha, error: e }),
            (Ok(r), Ok(g), Ok(b), Ok(a)) => Ok((f[0], r, g, b, a)),
        }
    }
}

/// The stops of a style file, in file order, or the error of the first line
/// that holds a bad field.
pub open spec fn stops_of_fields(rows: Seq<Seq<Seq<char>>>, value_ok: Seq<bool>) -> Result<
    Seq<(Seq<char>, u8, u8, u8, u8)>,
    StyleError,
>
    decreases rows.len(),
{
    if rows.len() == 0 {
        Ok(Seq::empty())
    } else {
        match stops_of_fields(rows.drop_last(), value_ok) {
            Err(e) => Err(e),
            Ok(acc) => match stop_of_fields(rows.last(), value_ok[rows.len() - 1]) {
                Err(e) => Err(e),
                Ok(stop) => Ok(acc.push(stop)),
            },
        }
    }
}

pub open spec fn stops_view(stops: Seq<StyleStop>) -> Seq<(Seq<char>, u8, u8, u8, u8)> {
    stops.map_values(|s: StyleStop| s.view())
}

/// Reads the stops from their fields. `value_ok[i]` tells whether the value
/// field of `rows[i]` is a float literal, which the caller learns from the float
/// parser that will read it.
pub fn parse_stops(rows: &Vec<StopFields>, value_ok: &Vec<bool>) -> (r: Result<
    Vec<StyleStop>,
    StyleError,
>)
    requires
        rows@.len() == value_ok@.len(),
    ensures
        match r {
            Ok(stops) => stops_of_fields(fields_view(rows@), value_ok@) == Ok::<
                Seq<(Seq<char>, u8, u8, u8, u8)>,
                StyleError,
            >(stops_view(stops@)),
            Err(e) => stops_of_fields(fields_view(rows@), value_ok@) == Err::<
                Seq<(Seq<char>, u8, u8, u8, u8)>,
                StyleError,
            >(e),
        },
{
    let mut stops: Vec<StyleStop> = Vec::new();
    let mut i: usize = 0;
    assert(fields_view(rows@).take(0) =~= Seq::<Seq<Seq<char>>>::empty());
    assert(stops_view(stops@) =~= Seq::empty());
    while i < rows.len()
        invariant
            rows@.len() == value_ok@.len(),
            i <= rows@.len(),
            stops_of_fields(fields_view(rows@).take(i as int), value_ok@) == Ok::<
                Seq<(Seq<char>, u8, u8, u8, u8)>,
                StyleError,
            >(stops_view(stops@)),
        decreases rows@.len() - i,
    {
        let row = &rows[i];
        let ghost all = fields_view(rows@);
        assert(all.take(i + 1).drop_last() =~= all.take(i as int));
        assert(all.take(i + 1).last() == row.view());
        let stop = match parse_stop(row, value_ok[i]) {
            Ok(stop) => stop,
            Err(e) => {
                proof { lemma_stops_error_sticks(all, value_ok@, (i + 1) as nat); }
                return Err(e);
            },
        };
        let ghost before = stops@;
        stops.push(stop);
        assert(stops@.drop_last() =~= before);
        assert(stops_view(stops@) =~= stops_view(before).push(stop.view()));
        i = i + 1;
    }
    assert(fields_view(rows@).take(rows@.len() as int) =~= fields_view(rows@));
    Ok(stops)
}

/// One stop from its fields.
fn parse_stop(f: &StopFields, value_ok: bool) -> (r: Result<StyleStop, StyleError>)
    ensures
        match r {
            Ok(s) => stop_of_fields(f.view(), value_ok) == Ok::<
                (Seq<char>, u8, u8, u8, u8),
                StyleError,
            >(s.view()),
            Err(e) => stop_of_fields(f.view(), value_ok) == Err::<
                (Seq<char>, u8, u8, u8, u8),
                StyleError,
            >(e),
        },
{
    if !value_ok {
        let error = if f.value.as_str().unicode_len() == 0 {
            NumberError::Empty
        } else {
            NumberError::InvalidFloat
        };
        return Err(StyleError { field: StopField::Value, error });
    }
    let red = match parse_u8(f.red.as_str()) {
        Ok(v) => v,
        Err(error) => return Err(StyleError { field: StopField::Red, error }),
    };
    let green = match parse_u8(f.green.as_str()) {
        Ok(v) => v,
        Err(error) => return Err(StyleError { field: StopField::Green, error }),
    };
    let blue = match parse_u8(f.blue.as_str()) {
        Ok(v) => v,
        Err(error) => return Err(StyleError { field: StopField::Blue, error }),
    };
    let alpha = match parse_u8(f.alpha.as_str()) {
        Ok(v) => v,
        Err(error) => return Err(StyleError { field: StopField::Alpha, error }),
    };
    Ok(StyleStop { value: f.value.clone(), red, green, blue, alpha })
}

/// Once a line gives an error, the stops of the whole file give it.
proof fn lemma_stops_error_sticks(rows: Seq<Seq<Seq<char>>>, value_ok: Seq<bool>, k: nat)
    requires
        k <= rows.len(),
        stops_of_fields(rows.take(k as int), value_ok) is Err,
    ensures
        stops_of_fields(rows, value_ok) == stops_of_fields(rows.take(k as int), value_ok),
    decreases rows.len() - k,
{
    if k < rows.len() {
        assert(rows.take(k as int + 1).drop_last() =~= rows.take(k as int));
        lemma_stops_error_sticks(rows, value_ok, k + 1);
    } else {
        assert(rows.take(k as int) =~= rows);
    }
}

} // verus!
