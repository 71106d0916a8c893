//! Form fields with validation rules.
use vstd::prelude::*;
use crate::text_map::TextMap;
use crate::text::{
    chars_of, same_chars, contains_char, is_whitespace, whitespace, concat, decimal, decimal_spec,
};

verus! {

/// A check that a field's value must pass.
#[derive(Clone, Copy, Debug, PartialEq, Eq, Structural)]
pub enum ValidationRule {
    /// The value holds something besides whitespace.
    Required,
    /// The value is at least this many bytes long (UTF-8).
    MinLength(usize),
    /// The value is at most this many bytes long (UTF-8).
    MaxLength(usize),
    /// The value holds an `@` and a `.`.
    Email,
    /// The value reads as a decimal floating-point number.
    Numeric,
}

/// One field of a form.
#[derive(Clone, Debug)]
pub struct FormField {
    pub name: String,
    pub field_type: String,
    pub value: String,
    pub required: bool,
    pub validation_rules: Vec<ValidationRule>,
    pub errors: Vec<String>,
}

/// A set of fields, keyed by name.
#[derive(Clone, Debug)]
pub struct Form {
    pub fields: Vec<FormField>,
    pub is_valid: bool,
    pub errors: Vec<String>,
}

pub open spec fn is_digit(c: char) -> bool {
    '0' <= c && c <= '9'
}

pub open spec fn all_digits(s: Seq<char>) -> bool {
    forall|i: int| 0 <= i < s.len() ==> is_digit(#[trigger] s[i])
}

pub open spec fn is_sign(c: char) -> bool {
    c == '+' || c == '-'
}

/// `c` equals the lower-case ASCII letter `lower` in either case.
pub open spec fn same_letter(c: char, lower: char) -> bool {
    c == lower || (c as u32) + 32 == lower as u32
}

/// `s` spells the lower-case word `w`, ignoring ASCII case.
pub open spec fn spells(s: Seq<char>, w: Seq<char>) -> bool {
    s.len() == w.len() && forall|i: int| 0 <= i < s.len() ==> same_letter(#[trigger] s[i], w[i])
}

/// A mantissa: digits with at most one `.`, and at least one digit.
pub open spec fn valid_mantissa(m: Seq<char>) -> bool {
    (m.len() > 0 && all_digits(m)) || exists|d: int|
        0 <= d < m.len() && m[d] == '.' && m.len() > 1 && all_digits(m.subrange(0, d)) && all_digits(
            m.subrange(d + 1, m.len() as int),
        )
}

/// An exponent: empty, or `e`/`E`, an optional sign and at least one digit.
pub open spec fn valid_exponent(x: Seq<char>) -> bool {
    x.len() == 0 || (x.len() >= 2 && (x[0] == 'e' || x[0] == 'E') && {
        let y = x.drop_first();
        let z = if is_sign(y[0]) {
            y.drop_first()
        } else {
            y
        };
        z.len() > 0 && all_digits(z)
    })
}

/// The index of the first `e` or `E` in `s`, or its length.
pub open spec fn first_exp_mark(s: Seq<char>) -> int
    decreases s.len(),
{
    if s.len() == 0 {
        0
    } else if s[0] == 'e' || s[0] == 'E' {
        0
    } else {
        1 + first_exp_mark(s.drop_first())
    }
}

/// The text without a leading sign.
pub open spec fn unsigned_part(s: Seq<char>) -> Seq<char> {
    if s.len() > 0 && is_sign(s[0]) {
        s.drop_first()
    } else {
        s
    }
}

/// Whether `s` is a floating-point literal in the grammar of the standard
/// library's float parser: an optional sign, then `inf`, `infinity` or `nan`
/// in any case, or a mantissa with an optional exponent.
pub open spec fn is_float_text(s: Seq<char>) -> bool {
    let u = unsigned_part(s);
    let e = first_exp_mark(u);
    spells(u, "inf"@) || spells(u, "infinity"@) || spells(u, "nan"@) || (valid_mantissa(
        u.subrange(0, e),
    ) && valid_exponent(u.subrange(e, u.len() as int)))
}

/// Whether every character of `s` is whitespace.
pub open spec fn blank(s: Seq<char>) -> bool {
    forall|i: int| 0 <= i < s.len() ==> whitespace(#[trigger] s[i])
}

/// The number of bytes of the UTF-8 encoding of `s`.
pub open spec fn byte_len(s: Seq<char>) -> nat {
    vstd::utf8::encode_utf8(s).len()
}

/// Whether `value` passes `rule`.
pub open spec fn passes(rule: ValidationRule, value: Seq<char>) -> bool {
    match rule {
        ValidationRule::Required => !blank(value),
        ValidationRule::MinLength(min) => byte_len(value) >= min,
        ValidationRule::MaxLength(max) => byte_len(value) <= max,
        ValidationRule::Email => value.contains('@') && value.contains('.'),
        ValidationRule::Numeric => is_float_text(value),
    }
}

/// The message for a field `name` that fails `rule`.
pub open spec fn failure_message(rule: ValidationRule, name: Seq<char>) -> Seq<char> {
    match rule {
        ValidationRule::Required => name + " is required"@,
        ValidationRule::MinLength(min) => name + " must be at least "@ + decimal_spec(min as nat)
            + " characters"@,
        ValidationRule::MaxLength(max) => name + " must be no more than "@ + decimal_spec(max as nat)
            + " characters"@,
        ValidationRule::Email => name + " must be a valid email"@,
        ValidationRule::Numeric => name + " must be a number"@,
    }
}

/// The messages for the rules in `rules` that `value` fails, in rule order.
pub open spec fn failures(rules: Seq<ValidationRule>, name: Seq<char>, value: Seq<char>) -> Seq<Seq<char>>
    decreases rules.len(),
{
    if rules.len() == 0 {
        seq![]
    } else {
        let rest = failures(rules.drop_last(), name, value);
        if passes(rules.last(), value) {
            rest
        } else {
            rest.push(failure_message(rules.last(), name))
        }
    }
}

/// Whether `value` passes every rule of `rules`.
pub open spec fn passes_all(rules: Seq<ValidationRule>, value: Seq<char>) -> bool {
    forall|i: int| 0 <= i < rules.len() ==> passes(#[trigger] rules[i], value)
}

proof fn lemma_failures_empty(rules: Seq<ValidationRule>, name: Seq<char>, value: Seq<char>)
    ensures
        failures(rules, name, value).len() == 0 <==> passes_all(rules, value),
    decreases rules.len(),
{
    if rules.len() > 0 {
        lemma_failures_empty(rules.drop_last(), name, value);
        if passes_all(rules.drop_last(), value) && passes(rules.last(), value) {
            assert forall|i: int| 0 <= i < rules.len() implies passes(#[trigger] rules[i], value) by {
                if i < rules.len() - 1 {
                    assert(rules.drop_last()[i] == rules[i]);
                }
            }
        }
        if passes_all(rules, value) {
            assert forall|i: int| 0 <= i < rules.drop_last().len() implies passes(
                #[trigger] rules.drop_last()[i],
                value,
            ) by {
                assert(rules.drop_last()[i] == rules[i]);
            }
            assert(passes(rules[rules.len() - 1], value));
        }
    }
}

fn is_digit_char(c: char) -> (r: bool)
    ensures
        r == is_digit(c),
{
    '0' <= c && c <= '9'
}

fn digits_between(s: &Vec<char>, from: usize, to: usize) -> (r: bool)
    requires
        from <= to <= s@.len(),
    ensures
        r == all_digits(s@.subrange(from as int, to as int)),
{
    let mut i = from;
    while i < to
        invariant
            from <= i <= to <= s@.len(),
            forall|j: int| from <= j < i ==> is_digit(s@[j]),
        decreases to - i,
    {
        if !is_digit_char(s[i]) {
            assert(s@.subrange(from as int, to as int)[i - from] == s@[i as int]);
            return false;
        }
        i += 1;
    }
    assert forall|j: int| 0 <= j < to - from implies is_digit(#[trigger] s@.subrange(from as int, to as int)[j]) by {
        assert(s@.subrange(from as int, to as int)[j] == s@[from + j]);
    }
    true
}

fn spells_word(s: &Vec<char>, from: usize, w: &str) -> (r: bool)
    requires
        from <= s@.len(),
        forall|i: int| 0 <= i < w@.len() ==> 'a' <= #[trigger] w@[i] && w@[i] <= 'z',
    ensures
        r == spells(s@.subrange(from as int, s@.len() as int), w@),
{
    let wv = chars_of(w);
    let n = s.len();
    if n - from != wv.len() {
        return false;
    }
    let mut i: usize = 0;
    while i < wv.len()
        invariant
            wv@ == w@,
            from <= s@.len(),
            s@.len() - from == wv@.len(),
            from + wv@.len() == s@.len(),
            n == s@.len(),
            i <= wv@.len(),
            forall|j: int| 0 <= j < i ==> same_letter(s@[from + j], w@[j]),
            forall|j: int| 0 <= j < w@.len() ==> 'a' <= #[trigger] w@[j] && w@[j] <= 'z',
        decreases wv@.len() - i,
    {
        let c = s[from + i];
        let l = wv[i];
        assert('a' <= l && l <= 'z');
        let ok = c == l || (c as u32) == (l as u32) - 32;
        if !ok {
            assert(s@.subrange(from as int, s@.len() as int)[i as int] == s@[from + i]);
            return false;
        }
        i += 1;
    }
    assert forall|j: int| 0 <= j < wv@.len() implies same_letter(
        #[trigger] s@.subrange(from as int, s@.len() as int)[j],
        w@[j],
    ) by {
        assert(s@.subrange(from as int, s@.len() as int)[j] == s@[from + j]);
    }
    true
}

proof fn lemma_first_exp_mark(s: Seq<char>)
    ensures
        0 <= first_exp_mark(s) <= s.len(),
        forall|j: int| 0 <= j < first_exp_mark(s) ==> s[j] != 'e' && s[j] != 'E',
        first_exp_mark(s) < s.len() ==> (s[first_exp_mark(s)] == 'e' || s[first_exp_mark(s)] == 'E'),
    decreases s.len(),
{
    if s.len() > 0 && !(s[0] == 'e' || s[0] == 'E') {
        lemma_first_exp_mark(s.drop_first());
        assert forall|j: int| 0 <= j < first_exp_mark(s) implies s[j] != 'e' && s[j] != 'E' by {
            if j > 0 {
                assert(s[j] == s.drop_first()[j - 1]);
            }
        }
    }
}

proof fn lemma_first_exp_mark_at(s: Seq<char>, e: int)
    requires
        0 <= e <= s.len(),
        forall|j: int| 0 <= j < e ==> s[j] != 'e' && s[j] != 'E',
        e < s.len() ==> (s[e] == 'e' || s[e] == 'E'),
    ensures
        first_exp_mark(s) == e,
    decreases s.len(),
{
    if s.len() > 0 && e > 0 {
        assert forall|j: int| 0 <= j < e - 1 implies s.drop_first()[j] != 'e' && s.drop_first()[j] != 'E' by {
            assert(s.drop_first()[j] == s[j + 1]);
        }
        lemma_first_exp_mark_at(s.drop_first(), e - 1);
    }
}

fn mantissa_ok(s: &Vec<char>, from: usize, to: usize) -> (r: bool)
    requires
        from <= to <= s@.len(),
    ensures
        r == valid_mantissa(s@.subrange(from as int, to as int)),
{
    let ghost m = s@.subrange(from as int, to as int);
    if to == from {
        return false;
    }
    let mut dot: usize = from;
    while dot < to && s[dot] != '.'
        invariant
            from <= dot <= to <= s@.len(),
            forall|j: int| from <= j < dot ==> s@[j] != '.',
        decreases to - dot,
    {
        dot += 1;
    }
    if dot == to {
        let r = digits_between(s, from, to);
        proof {
            if !r {
                assert forall|d: int| 0 <= d < m.len() && m[d] == '.' implies false by {
                    assert(m[d] == s@[from + d]);
                }
            }
        }
        return r;
    }
    let left = digits_between(s, from, dot);
    let right = digits_between(s, dot + 1, to);
    proof {
        let d = dot - from;
        assert(m[d] == '.');
        assert(m.subrange(0, d) =~= s@.subrange(from as int, dot as int));
        assert(m.subrange(d + 1, m.len() as int) =~= s@.subrange(dot + 1, to as int));
        if !(left && right && m.len() > 1) {
            // A digit-only mantissa is ruled out by the dot; another dot position would
            // put this dot on one side, which is not a digit.
            assert(!all_digits(m)) by {
                assert(!is_digit(m[d]));
            }
            assert forall|d2: int|
                0 <= d2 < m.len() && m[d2] == '.' && m.len() > 1 && all_digits(m.subrange(0, d2))
                    && all_digits(m.subrange(d2 + 1, m.len() as int)) implies false by {
                if d2 < d {
                    assert(m.subrange(d2 + 1, m.len() as int)[d - d2 - 1] == m[d]);
                } else if d2 > d {
                    assert(m.subrange(0, d2)[d] == m[d]);
                    assert(m[d2] == s@[from + d2]);
                } else {
                }
            }
        }
    }
    left && right && to - from > 1
}

fn exponent_ok(s: &Vec<char>, from: usize) -> (r: bool)
    requires
        from <= s@.len(),
    ensures
        r == valid_exponent(s@.subrange(from as int, s@.len() as int)),
{
    let ghost x = s@.subrange(from as int, s@.len() as int);
    if from == s.len() {
        return true;
    }
    if s.len() - from < 2 {
        return false;
    }
    if s[from] != 'e' && s[from] != 'E' {
        return false;
    }
    let mut start = from + 1;
    let signed = s[start] == '+' || s[start] == '-';
    if signed {
        start = start + 1;
    }
    proof {
        let y = x.drop_first();
        assert(y =~= s@.subrange(from + 1, s@.len() as int));
        assert(y[0] == s@[from + 1]);
        if signed {
            assert(y.drop_first() =~= s@.subrange(start as int, s@.len() as int));
        }
    }
    if start >= s.len() {
        return false;
    }
    digits_between(s, start, s.len())
}

/// Whether `s` reads as a floating-point number (see `is_float_text`).
pub fn is_float_literal(s: &Vec<char>) -> (r: bool)
    ensures
        r == is_float_text(s@),
{
    let from: usize = if s.len() > 0 && (s[0] == '+' || s[0] == '-') {
        1
    } else {
        0
    };
    let ghost u = unsigned_part(s@);
    assert(u =~= s@.subrange(from as int, s@.len() as int));
    proof {
        reveal_strlit("inf");
        reveal_strlit("infinity");
        reveal_strlit("nan");
    }
    if spells_word(s, from, "inf") || spells_word(s, from, "infinity") || spells_word(s, from, "nan") {
        return true;
    }
    let mut e = from;
    while e < s.len() && s[e] != 'e' && s[e] != 'E'
        invariant
            from <= e <= s@.len(),
            forall|j: int| from <= j < e ==> s@[j] != 'e' && s@[j] != 'E',
        decreases s@.len() - e,
    {
        e += 1;
    }
    proof {
        lemma_first_exp_mark_at(u, e - from);
        assert(u.subrange(0, e - from) =~= s@.subrange(from as int, e as int));
        assert(u.subrange(e - from, u.len() as int) =~= s@.subrange(e as int, s@.len() as int));
    }
    mantissa_ok(s, from, e) && exponent_ok(s, e)
}

/// Whether every character of `v` is whitespace.
fn is_blank(v: &Vec<char>) -> (r: bool)
    ensures
        r == blank(v@),
{
    let mut i: usize = 0;
    while i < v.len()
        invariant
            i <= v@.len(),
            forall|j: int| 0 <= j < i ==> whitespace(v@[j]),
        decreases v@.len() - i,
    {
        if !is_whitespace(v[i]) {
            return false;
        }
        i += 1;
    }
    true
}

/// Whether `value` passes `rule`.
pub fn check_rule(rule: ValidationRule, value: &str) -> (r: bool)
    ensures
        r == passes(rule, value@),
{
    let v = chars_of(value);
    match rule {
        ValidationRule::Required => {
            let b = is_blank(&v);
            !b
        },
        ValidationRule::MinLength(min) => {
            let n = value.as_bytes().len();
            n >= min
        },
        ValidationRule::MaxLength(max) => {
            let n = value.as_bytes().len();
            n <= max
        },
        ValidationRule::Email => contains_char(&v, '@') && contains_char(&v, '.'),
        ValidationRule::Numeric => is_float_literal(&v),
    }
}

/// The message for a field named `name` that fails `rule`.
pub fn rule_message(rule: ValidationRule, name: &str) -> (r: String)
    ensures
        r@ == failure_message(rule, name@),
{
    match rule {
        ValidationRule::Required => concat(name, " is required"),
        ValidationRule::MinLength(min) => {
            let a = concat(name, " must be at least ");
            let b = concat(a.as_str(), decimal(min as u64).as_str());
            concat(b.as_str(), " characters")
        },
        ValidationRule::MaxLength(max) => {
            let a = concat(name, " must be no more than ");
            let b = concat(a.as_str(), decimal(max as u64).as_str());
            concat(b.as_str(), " characters")
        },
        ValidationRule::Email => concat(name, " must be a valid email"),
        ValidationRule::Numeric => concat(name, " must be a number"),
    }
}

impl FormField {
    /// A copy of the field.
    pub fn copy(&self) -> (r: FormField)
        ensures
            r.name@ == self.name@,
            r.field_type@ == self.field_type@,
            r.value@ == self.value@,
            r.required == self.required,
            r.validation_rules@ == self.validation_rules@,
            r.errors.deep_view() == self.errors.deep_view(),
    {
        let mut rules: Vec<ValidationRule> = Vec::new();
        let mut i: usize = 0;
        while i < self.validation_rules.len()
            invariant
                i <= self.validation_rules@.len(),
                rules@ == self.validation_rules@.subrange(0, i as int),
            decreases self.validation_rules@.len() - i,
        {
            rules.push(self.validation_rules[i]);
            assert(rules@ =~= self.validation_rules@.subrange(0, i as int + 1));
            i += 1;
        }
        assert(rules@ =~= self.validation_rules@);
        let mut errors: Vec<String> = Vec::new();
        let mut j: usize = 0;
        assert(errors.deep_view() =~= self.errors.deep_view().subrange(0, 0));
        while j < self.errors.len()
            invariant
                j <= self.errors@.len(),
                errors.deep_view() == self.errors.deep_view().subrange(0, j as int),
            decreases self.errors@.len() - j,
        {
            let ghost before = errors.deep_view();
            errors.push(self.errors[j].clone());
            assert(errors.deep_view() =~= before.push(self.errors.deep_view()[j as int]));
            assert(errors.deep_view() =~= self.errors.deep_view().subrange(0, j as int + 1));
            j += 1;
        }
        assert(errors.deep_view() =~= self.errors.deep_view());
        FormField {
            name: self.name.clone(),
            field_type: self.field_type.clone(),
            value: self.value.clone(),
            required: self.required,
            validation_rules: rules,
            errors,
        }
    }

    /// Adds a rule, checked after the ones already there.
    fn with_rule(self, rule: ValidationRule) -> (r: FormField)
        ensures
            r.validation_rules@ == self.validation_rules@.push(rule),
            r.name == self.name,
            r.value == self.value,
            r.field_type == self.field_type,
            r.required == self.required,
            r.errors == self.errors,
    {
        let mut f = self;
        f.validation_rules.push(rule);
        f
    }

    /// Asks for a value that is not blank.
    pub fn required(self) -> (r: FormField)
        ensures
            r.validation_rules@ == self.validation_rules@.push(ValidationRule::Required),
            r.name == self.name,
            r.value == self.value,
            r.field_type == self.field_type,
            r.required == self.required,
            r.errors == self.errors,
    {
        self.with_rule(ValidationRule::Required)
    }

    /// Asks for at least `min` bytes.
    pub fn min_length(self, min: usize) -> (r: FormField)
        ensures
            r.validation_rules@ == self.validation_rules@.push(ValidationRule::MinLength(min)),
            r.name == self.name,
            r.value == self.value,
            r.field_type == self.field_type,
            r.required == self.required,
            r.errors == self.errors,
    {
        self.with_rule(ValidationRule::MinLength(min))
    }

    /// Asks for at most `max` bytes.
    pub fn max_length(self, max: usize) -> (r: FormField)
        ensures
            r.validation_rules@ == self.validation_rules@.push(ValidationRule::MaxLength(max)),
            r.name == self.name,
            r.value == self.value,
            r.field_type == self.field_type,
            r.required == self.required,
            r.errors == self.errors,
    {
        self.with_rule(ValidationRule::MaxLength(max))
    }

    /// Asks for an e-mail address.
    pub fn email(self) -> (r: FormField)
        ensures
            r.validation_rules@ == self.validation_rules@.push(ValidationRule::Email),
            r.name == self.name,
            r.value == self.value,
            r.field_type == self.field_type,
            r.required == self.required,
            r.errors == self.errors,
    {
        self.with_rule(ValidationRule::Email)
    }

    /// Asks for a number.
    pub fn numeric(self) -> (r: FormField)
        ensures
            r.validation_rules@ == self.validation_rules@.push(ValidationRule::Numeric),
            r.name == self.name,
            r.value == self.value,
            r.field_type == self.field_type,
            r.required == self.required,
            r.errors == self.errors,
    {
        self.with_rule(ValidationRule::Numeric)
    }

    /// Checks the value against every rule, in order, and records a message for each failure.
    pub fn validate(&mut self) -> (ok: bool)
        ensures
            final(self).errors.deep_view() == failures(
                old(self).validation_rules@,
                old(self).name@,
                old(self).value@,
            ),
            ok == passes_all(old(self).validation_rules@, old(self).value@),
            final(self).name == old(self).name,
            final(self).value == old(self).value,
            final(self).validation_rules == old(self).validation_rules,
            final(self).field_type == old(self).field_type,
            final(self).required == old(self).required,
    {
        let mut errors: Vec<String> = Vec::new();
        let mut i: usize = 0;
        let ghost rules = self.validation_rules@;
        assert(rules.subrange(0, 0) =~= Seq::<ValidationRule>::empty());
        while i < self.validation_rules.len()
            invariant
                rules == self.validation_rules@,
                i <= rules.len(),
                errors.deep_view() == failures(rules.subrange(0, i as int), self.name@, self.value@),
            decreases rules.len() - i,
        {
            let rule = self.validation_rules[i];
            assert(rules.subrange(0, i + 1).drop_last() =~= rules.subrange(0, i as int));
            if !check_rule(rule, self.value.as_str()) {
                let ghost before = errors.deep_view();
                errors.push(rule_message(rule, self.name.as_str()));
                assert(errors.deep_view() =~= before.push(failure_message(rule, self.name@)));
            }
            i += 1;
        }
        assert(rules.subrange(0, rules.len() as int) =~= rules);
        proof {
            lemma_failures_empty(rules, self.name@, self.value@);
        }
        let ok = errors.len() == 0;
        self.errors = errors;
        ok
    }
}

/// `after` is `before` with its value taken from `values` when `values` has
/// its name, and `before` unchanged otherwise.
pub open spec fn populated(before: FormField, after: FormField, values: Map<Seq<char>, Seq<char>>) -> bool {
    if values.contains_key(before.name@) {
        after.value@ == values[before.name@] && after.name@ == before.name@ && after.field_type@
            == before.field_type@ && after.validation_rules@ == before.validation_rules@
    } else {
        after == before
    }
}

impl Form {
    /// Field names are unique.
    pub open spec fn wf(&self) -> bool {
        forall|i: int, j: int|
            0 <= i < j < self.fields@.len() ==> self.fields@[i].name@ != self.fields@[j].name@
    }

    /// A form with no fields, valid until checked.
    pub fn new() -> (r: Form)
        ensures
            r.wf(),
            r.fields@.len() == 0,
            r.is_valid,
            r.errors@.len() == 0,
    {
        Form { fields: Vec::new(), is_valid: true, errors: Vec::new() }
    }

    fn position(&self, name: &Vec<char>) -> (r: Option<usize>)
        ensures
            match r {
                Some(i) => i < self.fields@.len() && self.fields@[i as int].name@ == name@,
                None => forall|j: int| 0 <= j < self.fields@.len() ==> self.fields@[j].name@ != name@,
            },
    {
        let mut i: usize = 0;
        while i < self.fields.len()
            invariant
                i <= self.fields@.len(),
                forall|j: int| 0 <= j < i ==> self.fields@[j].name@ != name@,
            decreases self.fields@.len() - i,
        {
            let n = chars_of(self.fields[i].name.as_str());
            if same_chars(&n, name) {
                return Some(i);
            }
            i += 1;
        }
        None
    }

    /// Adds an empty field without rules, replacing any field of the same
    /// name, and returns its index.
    pub fn add_field(&mut self, name: &str, field_type: &str, required: bool) -> (idx: usize)
        requires
            old(self).wf(),
        ensures
            final(self).wf(),
            idx < final(self).fields@.len(),
            final(self).fields@[idx as int].name@ == name@,
            final(self).fields@[idx as int].field_type@ == field_type@,
            final(self).fields@[idx as int].value@.len() == 0,
            final(self).fields@[idx as int].required == required,
            final(self).fields@[idx as int].validation_rules@.len() == 0,
            final(self).fields@[idx as int].errors@.len() == 0,
            (exists|i: int| 0 <= i < old(self).fields@.len() && old(self).fields@[i].name@ == name@)
                ==> idx < old(self).fields@.len() && old(self).fields@[idx as int].name@ == name@
                && final(self).fields@ == old(self).fields@.update(idx as int, final(self).fields@[idx as int]),
            !(exists|i: int| 0 <= i < old(self).fields@.len() && old(self).fields@[i].name@ == name@)
                ==> idx == old(self).fields@.len()
                && final(self).fields@ == old(self).fields@.push(final(self).fields@[idx as int]),
            final(self).is_valid == old(self).is_valid,
            final(self).errors == old(self).errors,
    {
        let field = FormField {
            name: name.to_string(),
            field_type: field_type.to_string(),
            value: String::new(),
            required,
            validation_rules: Vec::new(),
            errors: Vec::new(),
        };
        let key = chars_of(name);
        let ghost before = self.fields@;
        match self.position(&key) {
            Some(i) => {
                self.fields.set(i, field);
                proof {
                    assert forall|a: int, b: int| 0 <= a < b < self.fields@.len() implies self.fields@[a].name@
                        != self.fields@[b].name@ by {
                        if a == i {
                            assert(before[b].name@ != before[i as int].name@);
                        } else if b == i {
                            assert(before[a].name@ != before[i as int].name@);
                        }
                    }
                    assert(self.fields@ =~= before.update(i as int, self.fields@[i as int]));
                }
                i
            },
            None => {
                self.fields.push(field);
                let i = self.fields.len() - 1;
                proof {
                    assert forall|a: int, b: int| 0 <= a < b < self.fields@.len() implies self.fields@[a].name@
                        != self.fields@[b].name@ by {
                        if b == i {
                            assert(before[a].name@ != name@);
                        }
                    }
                    assert(self.fields@ =~= before.push(self.fields@[i as int]));
                }
                i
            },
        }
    }

    /// Replaces the field at `idx`, keeping its name.
    pub fn set_field(&mut self, idx: usize, field: FormField)
        requires
            old(self).wf(),
            idx < old(self).fields@.len(),
            field.name@ == old(self).fields@[idx as int].name@,
        ensures
            final(self).wf(),
            final(self).fields@ == old(self).fields@.update(idx as int, field),
            final(self).is_valid == old(self).is_valid,
            final(self).errors == old(self).errors,
    {
        self.fields.set(idx, field);
    }

    /// Sets the value of the field named `name`; returns whether there is one.
    pub fn set_value(&mut self, name: &str, value: &str) -> (found: bool)
        requires
            old(self).wf(),
        ensures
            final(self).wf(),
            found == exists|i: int| 0 <= i < old(self).fields@.len() && old(self).fields@[i].name@ == name@,
            final(self).fields@.len() == old(self).fields@.len(),
            forall|i: int|
                0 <= i < old(self).fields@.len() ==> (if old(self).fields@[i].name@ == name@ {
                    #[trigger] final(self).fields@[i].value@ == value@ && final(self).fields@[i].name@
                        == old(self).fields@[i].name@ && final(self).fields@[i].validation_rules@
                        == old(self).fields@[i].validation_rules@
                } else {
                    final(self).fields@[i] == old(self).fields@[i]
                }),
    {
        let key = chars_of(name);
        match self.position(&key) {
            Some(i) => {
                let ghost before = self.fields@;
                let mut f = self.fields[i].copy();
                f.value = value.to_string();
                proof {
                    assert forall|j: int| 0 <= j < before.len() && j != i implies before[j].name@ != name@ by {
                        if j < i {
                            assert(before[j].name@ != before[i as int].name@);
                        } else {
                            assert(before[i as int].name@ != before[j].name@);
                        }
                    }
                }
                self.fields.set(i, f);
                true
            },
            None => false,
        }
    }

    /// Sets each field whose name is a key of `values` to that key's value;
    /// the other fields keep theirs.
    pub fn populate(&mut self, values: &TextMap)
        requires
            old(self).wf(),
            values.wf(),
        ensures
            final(self).wf(),
            final(self).fields@.len() == old(self).fields@.len(),
            forall|i: int|
                0 <= i < old(self).fields@.len() ==> populated(
                    old(self).fields@[i],
                    #[trigger] final(self).fields@[i],
                    values@,
                ),
    {
        let ghost start = self.fields@;
        let mut i: usize = 0;
        while i < self.fields.len()
            invariant
                values.wf(),
                self.fields@.len() == start.len(),
                i <= start.len(),
                forall|a: int, b: int|
                    0 <= a < b < self.fields@.len() ==> self.fields@[a].name@ != self.fields@[b].name@,
                forall|j: int| i <= j < start.len() ==> #[trigger] self.fields@[j] == start[j],
                forall|j: int| 0 <= j < i ==> populated(start[j], #[trigger] self.fields@[j], values@),
            decreases start.len() - i,
        {
            let ghost before = self.fields@;
            match values.get(self.fields[i].name.as_str()) {
                Some(v) => {
                    let mut f = self.fields[i].copy();
                    f.value = v.clone();
                    self.fields.set(i, f);
                    assert(populated(start[i as int], self.fields@[i as int], values@));
                    assert forall|a: int, b: int| 0 <= a < b < self.fields@.len() implies self.fields@[a].name@
                        != self.fields@[b].name@ by {
                        assert(self.fields@[a].name@ == before[a].name@);
                        assert(self.fields@[b].name@ == before[b].name@);
                    }
                },
                None => {
                    assert(populated(start[i as int], self.fields@[i as int], values@));
                },
            }
            i += 1;
        }
    }

    /// Checks every field; the form is valid exactly when every field passes every one of its rules.
    pub fn validate(&mut self) -> (ok: bool)
        requires
            old(self).wf(),
        ensures
            final(self).wf(),
            ok == final(self).is_valid,
            ok == forall|i: int|
                0 <= i < old(self).fields@.len() ==> passes_all(
                    #[trigger] old(self).fields@[i].validation_rules@,
                    old(self).fields@[i].value@,
                ),
            final(self).errors@.len() == 0,
            final(self).fields@.len() == old(self).fields@.len(),
            forall|i: int|
                0 <= i < old(self).fields@.len() ==> (#[trigger] final(self).fields@[i]).errors.deep_view()
                    == failures(
                    old(self).fields@[i].validation_rules@,
                    old(self).fields@[i].name@,
                    old(self).fields@[i].value@,
                ) && final(self).fields@[i].name@ == old(self).fields@[i].name@
                    && final(self).fields@[i].value@ == old(self).fields@[i].value@
                    && final(self).fields@[i].validation_rules@ == old(
                    self,
                ).fields@[i].validation_rules@
                    && final(self).fields@[i].field_type@ == old(self).fields@[i].field_type@
                    && final(self).fields@[i].required == old(self).fields@[i].required,
    {
        let ghost start = self.fields@;
        let mut all_ok = true;
        let mut i: usize = 0;
        while i < self.fields.len()
            invariant
                self.fields@.len() == start.len(),
                i <= start.len(),
                forall|a: int, b: int|
                    0 <= a < b < self.fields@.len() ==> self.fields@[a].name@ != self.fields@[b].name@,
                all_ok == forall|j: int|
                    0 <= j < i ==> passes_all(#[trigger] start[j].validation_rules@, start[j].value@),
                forall|j: int| i <= j < start.len() ==> #[trigger] self.fields@[j] == start[j],
                forall|j: int|
                    0 <= j < i ==> (#[trigger] self.fields@[j]).errors.deep_view() == failures(
                        start[j].validation_rules@,
                        start[j].name@,
                        start[j].value@,
                    ) && self.fields@[j].name@ == start[j].name@ && self.fields@[j].value@
                        == start[j].value@ && self.fields@[j].validation_rules@
                        == start[j].validation_rules@
                        && self.fields@[j].field_type@ == start[j].field_type@
                        && self.fields@[j].required == start[j].required,
            decreases start.len() - i,
        {
            let mut f = self.fields[i].copy();
            let ok = f.validate();
            self.fields.set(i, f);
            all_ok = all_ok && ok;
            i += 1;
        }
        self.is_valid = all_ok;
        self.errors = Vec::new();
        all_ok
    }
}

} // verus!
