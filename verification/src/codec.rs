//! The login-response data model. The JSON codec over it is added below the
//! type definitions: a decoder that tries the success shape first and the
//! failure shape second, and encoders used to state the round-trip law.

use vstd::prelude::*;
use crate::text::{to_chars, from_chars, push_char, dec_int, dec_nat, dec_digit};
use vstd::string::StringExecFns;

verus! {

/// The success shape of the login response; `locked` means the account
/// needs a second factor before a session is established.
pub struct OkResp {
    pub username: String,
    pub sync_token: String,
    pub locked: bool,
    pub redirect_to: String,
}

/// Spec-level view of `OkResp`.
pub struct OkRespView {
    pub username: Seq<char>,
    pub sync_token: Seq<char>,
    pub locked: bool,
    pub redirect_to: Seq<char>,
}

impl View for OkResp {
    type V = OkRespView;

    open spec fn view(&self) -> OkRespView {
        OkRespView {
            username: self.username@,
            sync_token: self.sync_token@,
            locked: self.locked,
            redirect_to: self.redirect_to@,
        }
    }
}

/// The failure shape of the login response.
pub struct ErrResp {
    pub status: i32,
    pub data: String,
    pub error_message: String,
    pub trace: String,
    pub custom_data: Vec<String>,
}

/// Spec-level view of `ErrResp`.
pub struct ErrRespView {
    pub status: int,
    pub data: Seq<char>,
    pub error_message: Seq<char>,
    pub trace: Seq<char>,
    pub custom_data: Seq<Seq<char>>,
}

impl View for ErrResp {
    type V = ErrRespView;

    open spec fn view(&self) -> ErrRespView {
        ErrRespView {
            status: self.status as int,
            data: self.data@,
            error_message: self.error_message@,
            trace: self.trace@,
            custom_data: self.custom_data@.map_values(|s: String| s@),
        }
    }
}

/// The polymorphic login response: one of the two shapes above.
pub enum LoginResp {
    Success(OkResp),
    Failure(ErrResp),
}

/// Spec-level view of `LoginResp`.
pub enum LoginRespView {
    Success(OkRespView),
    Failure(ErrRespView),
}

impl View for LoginResp {
    type V = LoginRespView;

    open spec fn view(&self) -> LoginRespView {
        match self {
            LoginResp::Success(o) => LoginRespView::Success(o@),
            LoginResp::Failure(e) => LoginRespView::Failure(e@),
        }
    }
}

// ---------------------------------------------------------------------------
// The JSON grammar the codec understands: an object whose values are
// strings, integers, booleans, or arrays of strings, which is exactly what
// the two response shapes need. Strings know the short escapes; `\u` is not
// accepted, non-ASCII characters pass through raw.
// ---------------------------------------------------------------------------

/// A value of the flat JSON object grammar.
pub enum FlatVal {
    Str(String),
    Int(i64),
    Bool(bool),
    StrArr(Vec<String>),
}

/// Spec-level view of `FlatVal`.
pub enum FlatValView {
    Str(Seq<char>),
    Int(int),
    Bool(bool),
    StrArr(Seq<Seq<char>>),
}

impl View for FlatVal {
    type V = FlatValView;

    open spec fn view(&self) -> FlatValView {
        match self {
            FlatVal::Str(s) => FlatValView::Str(s@),
            FlatVal::Int(n) => FlatValView::Int(*n as int),
            FlatVal::Bool(b) => FlatValView::Bool(*b),
            FlatVal::StrArr(v) => FlatValView::StrArr(v@.map_values(|s: String| s@)),
        }
    }
}

pub open spec fn is_json_ws(c: char) -> bool {
    c == ' ' || c == '\t' || c == '\n' || c == '\r'
}

pub open spec fn is_digit(c: char) -> bool {
    '0' <= c && c <= '9'
}

pub open spec fn digit_val(c: char) -> int {
    c as int - '0' as int
}

pub open spec fn is_ctl(c: char) -> bool {
    (c as u32) < 32
}

/// The character a short escape stands for, if the escape is known.
pub open spec fn unescape(c: char) -> Option<char> {
    if c == '"' {
        Some('"')
    } else if c == '\\' {
        Some('\\')
    } else if c == '/' {
        Some('/')
    } else if c == 'n' {
        Some('\n')
    } else if c == 'r' {
        Some('\r')
    } else if c == 't' {
        Some('\t')
    } else if c == 'b' {
        Some('\u{8}')
    } else if c == 'f' {
        Some('\u{c}')
    } else {
        None
    }
}

/// The input with its leading whitespace removed.
pub open spec fn sp_ws(s: Seq<char>) -> Seq<char>
    decreases s.len(),
{
    if s.len() > 0 && is_json_ws(s[0]) {
        sp_ws(s.drop_first())
    } else {
        s
    }
}

/// Parses a string body after its opening quote: the decoded content and
/// what follows the closing quote.
pub open spec fn sp_str_body(s: Seq<char>) -> Option<(Seq<char>, Seq<char>)>
    decreases s.len(),
{
    if s.len() == 0 {
        None
    } else if s[0] == '"' {
        Some((Seq::<char>::empty(), s.drop_first()))
    } else if s[0] == '\\' {
        if s.len() >= 2 {
            match unescape(s[1]) {
                Some(c) => match sp_str_body(s.skip(2)) {
                    Some(p) => Some((seq![c] + p.0, p.1)),
                    None => None,
                },
                None => None,
            }
        } else {
            None
        }
    } else if is_ctl(s[0]) {
        None
    } else {
        match sp_str_body(s.drop_first()) {
            Some(p) => Some((seq![s[0]] + p.0, p.1)),
            None => None,
        }
    }
}

/// Parses a quoted string.
pub open spec fn sp_string(s: Seq<char>) -> Option<(Seq<char>, Seq<char>)> {
    if s.len() > 0 && s[0] == '"' {
        sp_str_body(s.drop_first())
    } else {
        None
    }
}

/// Splits the longest leading run of digits from the input.
pub open spec fn sp_digits(s: Seq<char>) -> (Seq<char>, Seq<char>)
    decreases s.len(),
{
    if s.len() > 0 && is_digit(s[0]) {
        let r = sp_digits(s.drop_first());
        (seq![s[0]] + r.0, r.1)
    } else {
        (Seq::<char>::empty(), s)
    }
}

/// The numeric value of a digit sequence, most significant digit first.
pub open spec fn dec_value(ds: Seq<char>) -> int
    decreases ds.len(),
{
    if ds.len() == 0 {
        0
    } else {
        dec_value(ds.drop_last()) * 10 + digit_val(ds.last())
    }
}

/// Parses an unsigned integer of at most 18 digits.
pub open spec fn sp_uint(s: Seq<char>) -> Option<(int, Seq<char>)> {
    let d = sp_digits(s);
    if d.0.len() == 0 || d.0.len() > 18 {
        None
    } else {
        Some((dec_value(d.0), d.1))
    }
}

/// Parses an optionally signed integer.
pub open spec fn sp_int(s: Seq<char>) -> Option<(int, Seq<char>)> {
    if s.len() > 0 && s[0] == '-' {
        match sp_uint(s.drop_first()) {
            Some(p) => Some((-p.0, p.1)),
            None => None,
        }
    } else {
        sp_uint(s)
    }
}

/// Parses a boolean literal.
pub open spec fn sp_bool(s: Seq<char>) -> Option<(bool, Seq<char>)> {
    if s.len() >= 4 && s.subrange(0, 4) == "true"@ {
        Some((true, s.skip(4)))
    } else if s.len() >= 5 && s.subrange(0, 5) == "false"@ {
        Some((false, s.skip(5)))
    } else {
        None
    }
}

/// How much smaller than the input a parser's leftover can be promised to
/// be: `sp_ws` never grows its input.
pub proof fn lemma_sp_ws_len(s: Seq<char>)
    ensures
        sp_ws(s).len() <= s.len(),
    decreases s.len(),
{
    if s.len() > 0 && is_json_ws(s[0]) {
        lemma_sp_ws_len(s.drop_first());
    }
}

/// A parsed string body always consumes at least its closing quote.
pub proof fn lemma_sp_str_body_len(s: Seq<char>)
    ensures
        sp_str_body(s) matches Some(p) ==> p.1.len() < s.len(),
    decreases s.len(),
{
    if s.len() == 0 {
    } else if s[0] == '"' {
    } else if s[0] == '\\' {
        if s.len() >= 2 && unescape(s[1]) is Some {
            lemma_sp_str_body_len(s.skip(2));
        }
    } else if !is_ctl(s[0]) {
        lemma_sp_str_body_len(s.drop_first());
    }
}

/// A parsed string always consumes at least its quotes.
pub proof fn lemma_sp_string_len(s: Seq<char>)
    ensures
        sp_string(s) matches Some(p) ==> p.1.len() < s.len(),
{
    if s.len() > 0 && s[0] == '"' {
        lemma_sp_str_body_len(s.drop_first());
    }
}

/// The digit splitter never grows its input.
pub proof fn lemma_sp_digits_len(s: Seq<char>)
    ensures
        sp_digits(s).1.len() <= s.len(),
    decreases s.len(),
{
    if s.len() > 0 && is_digit(s[0]) {
        lemma_sp_digits_len(s.drop_first());
    }
}

/// Parses the items of a string array after its opening bracket.
pub open spec fn sp_str_items(s: Seq<char>) -> Option<(Seq<Seq<char>>, Seq<char>)>
    decreases s.len(),
    via sp_str_items_decreases
{
    match sp_string(sp_ws(s)) {
        None => None,
        Some((v, s2)) => {
            let s3 = sp_ws(s2);
            if s3.len() == 0 {
                None
            } else if s3[0] == ',' {
                match sp_str_items(s3.drop_first()) {
                    Some((vs, s4)) => Some((seq![v] + vs, s4)),
                    None => None,
                }
            } else if s3[0] == ']' {
                Some((seq![v], s3.drop_first()))
            } else {
                None
            }
        },
    }
}

#[via_fn]
proof fn sp_str_items_decreases(s: Seq<char>) {
    lemma_sp_ws_len(s);
    lemma_sp_string_len(sp_ws(s));
    match sp_string(sp_ws(s)) {
        None => {},
        Some((v, s2)) => {
            lemma_sp_ws_len(s2);
        },
    }
}

/// Parses a string array; expects the opening bracket itself.
pub open spec fn sp_array(s: Seq<char>) -> Option<(Seq<Seq<char>>, Seq<char>)> {
    if s.len() > 0 && s[0] == '[' {
        let s1 = sp_ws(s.drop_first());
        if s1.len() > 0 && s1[0] == ']' {
            Some((Seq::<Seq<char>>::empty(), s1.drop_first()))
        } else {
            sp_str_items(s.drop_first())
        }
    } else {
        None
    }
}

/// Parses one flat value, skipping leading whitespace.
pub open spec fn sp_value(s: Seq<char>) -> Option<(FlatValView, Seq<char>)> {
    let s1 = sp_ws(s);
    if s1.len() == 0 {
        None
    } else if s1[0] == '"' {
        match sp_string(s1) {
            Some(p) => Some((FlatValView::Str(p.0), p.1)),
            None => None,
        }
    } else if s1[0] == 't' || s1[0] == 'f' {
        match sp_bool(s1) {
            Some(p) => Some((FlatValView::Bool(p.0), p.1)),
            None => None,
        }
    } else if s1[0] == '-' || is_digit(s1[0]) {
        match sp_int(s1) {
            Some(p) => Some((FlatValView::Int(p.0), p.1)),
            None => None,
        }
    } else if s1[0] == '[' {
        match sp_array(s1) {
            Some(p) => Some((FlatValView::StrArr(p.0), p.1)),
            None => None,
        }
    } else {
        None
    }
}

/// A parsed value never grows its input.
pub proof fn lemma_sp_value_len(s: Seq<char>)
    ensures
        sp_value(s) matches Some(p) ==> p.1.len() <= s.len(),
{
    lemma_sp_ws_len(s);
    let s1 = sp_ws(s);
    if s1.len() > 0 {
        if s1[0] == '"' {
            lemma_sp_string_len(s1);
        } else if s1[0] == '-' || is_digit(s1[0]) {
            lemma_sp_digits_len(s1);
            if s1[0] == '-' {
                lemma_sp_digits_len(s1.drop_first());
            }
        } else if s1[0] == '[' {
            lemma_sp_array_len(s1);
        }
    }
}

/// A parsed array never grows its input.
pub proof fn lemma_sp_array_len(s: Seq<char>)
    ensures
        sp_array(s) matches Some(p) ==> p.1.len() <= s.len(),
{
    if s.len() > 0 && s[0] == '[' {
        lemma_sp_ws_len(s.drop_first());
        lemma_sp_str_items_len(s.drop_first());
    }
}

/// Parsed array items never grow their input.
pub proof fn lemma_sp_str_items_len(s: Seq<char>)
    ensures
        sp_str_items(s) matches Some(p) ==> p.1.len() <= s.len(),
    decreases s.len(),
{
    lemma_sp_ws_len(s);
    lemma_sp_string_len(sp_ws(s));
    match sp_string(sp_ws(s)) {
        None => {},
        Some((v, s2)) => {
            lemma_sp_ws_len(s2);
            let s3 = sp_ws(s2);
            if s3.len() > 0 && s3[0] == ',' {
                lemma_sp_str_items_len(s3.drop_first());
            }
        },
    }
}

/// Parses the members of an object after its opening brace.
pub open spec fn sp_members(s: Seq<char>) -> Option<(Seq<(Seq<char>, FlatValView)>, Seq<char>)>
    decreases s.len(),
    via sp_members_decreases
{
    match sp_string(sp_ws(s)) {
        None => None,
        Some((key, s2)) => {
            let s3 = sp_ws(s2);
            if s3.len() == 0 || s3[0] != ':' {
                None
            } else {
                match sp_value(s3.drop_first()) {
                    None => None,
                    Some((v, s4)) => {
                        let s5 = sp_ws(s4);
                        if s5.len() == 0 {
                            None
                        } else if s5[0] == ',' {
                            match sp_members(s5.drop_first()) {
                                Some((ps, s6)) => Some((seq![(key, v)] + ps, s6)),
                                None => None,
                            }
                        } else if s5[0] == '}' {
                            Some((seq![(key, v)], s5.drop_first()))
                        } else {
                            None
                        }
                    },
                }
            }
        },
    }
}

#[via_fn]
proof fn sp_members_decreases(s: Seq<char>) {
    lemma_sp_ws_len(s);
    lemma_sp_string_len(sp_ws(s));
    match sp_string(sp_ws(s)) {
        None => {},
        Some((key, s2)) => {
            lemma_sp_ws_len(s2);
            let s3 = sp_ws(s2);
            if s3.len() > 0 && s3[0] == ':' {
                lemma_sp_value_len(s3.drop_first());
                match sp_value(s3.drop_first()) {
                    None => {},
                    Some((v, s4)) => {
                        lemma_sp_ws_len(s4);
                    },
                }
            }
        },
    }
}

/// Parses one whole flat object, leading whitespace included.
pub open spec fn sp_object(s: Seq<char>) -> Option<(Seq<(Seq<char>, FlatValView)>, Seq<char>)> {
    let s1 = sp_ws(s);
    if s1.len() == 0 || s1[0] != '{' {
        None
    } else {
        let s2 = sp_ws(s1.drop_first());
        if s2.len() > 0 && s2[0] == '}' {
            Some((Seq::<(Seq<char>, FlatValView)>::empty(), s2.drop_first()))
        } else {
            sp_members(s1.drop_first())
        }
    }
}

/// The flat object a whole input denotes: one object and nothing but
/// whitespace after it.
pub open spec fn spec_parse_flat(s: Seq<char>) -> Option<Seq<(Seq<char>, FlatValView)>> {
    match sp_object(s) {
        Some(p) => {
            if sp_ws(p.1).len() == 0 {
                Some(p.0)
            } else {
                None
            }
        },
        None => None,
    }
}

/// The first value a key is bound to, if any.
pub open spec fn lookup_pairs(ps: Seq<(Seq<char>, FlatValView)>, key: Seq<char>) -> Option<
    FlatValView,
>
    decreases ps.len(),
{
    if ps.len() == 0 {
        None
    } else if ps[0].0 == key {
        Some(ps[0].1)
    } else {
        lookup_pairs(ps.drop_first(), key)
    }
}

/// Reads the success shape out of a flat object, ignoring unknown keys.
pub open spec fn to_ok(ps: Seq<(Seq<char>, FlatValView)>) -> Option<OkRespView> {
    match (
        lookup_pairs(ps, "username"@),
        lookup_pairs(ps, "syncToken"@),
        lookup_pairs(ps, "locked"@),
        lookup_pairs(ps, "redirectTo"@),
    ) {
        (
            Some(FlatValView::Str(u)),
            Some(FlatValView::Str(t)),
            Some(FlatValView::Bool(l)),
            Some(FlatValView::Str(r)),
        ) => Some(
            (OkRespView { username: u, sync_token: t, locked: l, redirect_to: r }),
        ),
        _ => None,
    }
}

/// Reads the failure shape out of a flat object, ignoring unknown keys; the
/// status must fit a 32-bit integer.
pub open spec fn to_err(ps: Seq<(Seq<char>, FlatValView)>) -> Option<ErrRespView> {
    match (
        lookup_pairs(ps, "status"@),
        lookup_pairs(ps, "data"@),
        lookup_pairs(ps, "errorMessage"@),
        lookup_pairs(ps, "trace"@),
        lookup_pairs(ps, "customData"@),
    ) {
        (
            Some(FlatValView::Int(st)),
            Some(FlatValView::Str(d)),
            Some(FlatValView::Str(m)),
            Some(FlatValView::Str(tr)),
            Some(FlatValView::StrArr(cd)),
        ) => {
            if i32::MIN <= st <= i32::MAX {
                Some(
                    (ErrRespView {
                        status: st,
                        data: d,
                        error_message: m,
                        trace: tr,
                        custom_data: cd,
                    }),
                )
            } else {
                None
            }
        },
        _ => None,
    }
}

/// What the decoder makes of an input: the success shape is attempted
/// first, then the failure shape.
pub open spec fn spec_decode(s: Seq<char>) -> Option<LoginRespView> {
    match spec_parse_flat(s) {
        None => None,
        Some(ps) => match to_ok(ps) {
            Some(o) => Some(LoginRespView::Success(o)),
            None => match to_err(ps) {
                Some(e) => Some(LoginRespView::Failure(e)),
                None => None,
            },
        },
    }
}

// ---------------------------------------------------------------------------
// The executable parser, one function per grammar production, each verified
// against the spec production on the unread suffix of the input.
// ---------------------------------------------------------------------------

proof fn lemma_skip_step(v: Seq<char>, i: int)
    requires
        0 <= i < v.len(),
    ensures
        v.skip(i)[0] == v[i],
        v.skip(i).drop_first() == v.skip(i + 1),
{
    assert(v.skip(i).drop_first() =~= v.skip(i + 1));
}

proof fn lemma_skip_skip(v: Seq<char>, i: int, k: int)
    requires
        0 <= i,
        0 <= k,
        i + k <= v.len(),
    ensures
        v.skip(i).skip(k) == v.skip(i + k),
{
    assert(v.skip(i).skip(k) =~= v.skip(i + k));
}

fn is_json_ws_exec(c: char) -> (r: bool)
    ensures
        r == is_json_ws(c),
{
    c == ' ' || c == '\t' || c == '\n' || c == '\r'
}

fn is_digit_exec(c: char) -> (r: bool)
    ensures
        r == is_digit(c),
{
    '0' <= c && c <= '9'
}

fn unescape_exec(c: char) -> (r: Option<char>)
    ensures
        r == unescape(c),
{
    if c == '"' {
        Some('"')
    } else if c == '\\' {
        Some('\\')
    } else if c == '/' {
        Some('/')
    } else if c == 'n' {
        Some('\n')
    } else if c == 'r' {
        Some('\r')
    } else if c == 't' {
        Some('\t')
    } else if c == 'b' {
        Some('\u{8}')
    } else if c == 'f' {
        Some('\u{c}')
    } else {
        None
    }
}

/// Skips whitespace: the first position whose suffix `sp_ws` leaves.
fn ex_ws(cs: &Vec<char>, i: usize) -> (j: usize)
    requires
        i <= cs@.len(),
    ensures
        i <= j <= cs@.len(),
        sp_ws(cs@.skip(i as int)) == cs@.skip(j as int),
{
    let mut j: usize = i;
    while j < cs.len() && is_json_ws_exec(cs[j])
        invariant
            i <= j <= cs@.len(),
            sp_ws(cs@.skip(i as int)) == sp_ws(cs@.skip(j as int)),
        decreases cs@.len() - j,
    {
        proof {
            lemma_skip_step(cs@, j as int);
        }
        j += 1;
    }
    proof {
        if j < cs@.len() {
            lemma_skip_step(cs@, j as int);
        }
        assert(sp_ws(cs@.skip(j as int)) == cs@.skip(j as int));
    }
    j
}

/// Parses a string body from position `i` (just past the opening quote).
fn ex_str_body(cs: &Vec<char>, i: usize) -> (r: Option<(Vec<char>, usize)>)
    requires
        i <= cs@.len(),
    ensures
        match r {
            Some(p) => {
                &&& i < p.1 <= cs@.len()
                &&& sp_str_body(cs@.skip(i as int)) == Some((p.0@, cs@.skip(p.1 as int)))
            },
            None => sp_str_body(cs@.skip(i as int)) is None,
        },
    decreases cs@.len() - i,
{
    if i == cs.len() {
        proof {
            assert(cs@.skip(i as int).len() == 0);
        }
        return None;
    }
    proof {
        lemma_skip_step(cs@, i as int);
    }
    let c = cs[i];
    if c == '"' {
        let v: Vec<char> = Vec::new();
        proof {
            assert(v@ =~= Seq::<char>::empty());
        }
        return Some((v, i + 1));
    }
    if c == '\\' {
        if i + 1 == cs.len() {
            return None;
        }
        let u = unescape_exec(cs[i + 1]);
        proof {
            assert(cs@.skip(i as int)[1] == cs@[i + 1]);
        }
        match u {
            Some(uc) => {
                proof {
                    lemma_skip_skip(cs@, i as int, 2);
                }
                match ex_str_body(cs, i + 2) {
                    Some((content, j)) => {
                        let ghost tail = content@;
                        let mut content = content;
                        content.insert(0, uc);
                        proof {
                            assert(content@ =~= seq![uc] + tail);
                        }
                        Some((content, j))
                    },
                    None => None,
                }
            },
            None => None,
        }
    } else if (c as u32) < 32 {
        proof {
            assert(is_ctl(c));
        }
        None
    } else {
        proof {
            assert(!is_ctl(c));
        }
        match ex_str_body(cs, i + 1) {
            Some((content, j)) => {
                let ghost tail = content@;
                let mut content = content;
                content.insert(0, c);
                proof {
                    assert(content@ =~= seq![c] + tail);
                }
                Some((content, j))
            },
            None => None,
        }
    }
}

/// Parses a quoted string at position `i`.
fn ex_string(cs: &Vec<char>, i: usize) -> (r: Option<(Vec<char>, usize)>)
    requires
        i <= cs@.len(),
    ensures
        match r {
            Some(p) => {
                &&& i < p.1 <= cs@.len()
                &&& sp_string(cs@.skip(i as int)) == Some((p.0@, cs@.skip(p.1 as int)))
            },
            None => sp_string(cs@.skip(i as int)) is None,
        },
{
    if i == cs.len() {
        proof {
            assert(cs@.skip(i as int).len() == 0);
        }
        return None;
    }
    proof {
        lemma_skip_step(cs@, i as int);
    }
    if cs[i] == '"' {
        ex_str_body(cs, i + 1)
    } else {
        None
    }
}

/// Powers of ten.
pub open spec fn pow10(n: nat) -> int
    decreases n,
{
    if n == 0 {
        1
    } else {
        10 * pow10((n - 1) as nat)
    }
}

/// A digit sequence's value is bounded by the power of ten of its length.
proof fn lemma_dec_value_bound(ds: Seq<char>)
    requires
        forall|j: int| 0 <= j < ds.len() ==> is_digit(ds[j]),
    ensures
        0 <= dec_value(ds) < pow10(ds.len() as nat),
    decreases ds.len(),
{
    if ds.len() > 0 {
        lemma_dec_value_bound(ds.drop_last());
    }
}

proof fn lemma_pow10_le(a: nat, b: nat)
    requires
        a <= b,
    ensures
        pow10(a) <= pow10(b),
    decreases b,
{
    if a < b {
        lemma_pow10_le(a, (b - 1) as nat);
        assert(pow10((b - 1) as nat) >= 1) by {
            lemma_pow10_le(0, (b - 1) as nat);
        }
    }
}

/// The digit run from `i` to `e` is what `sp_digits` splits off.
proof fn lemma_sp_digits_run(v: Seq<char>, i: int, e: int)
    requires
        0 <= i <= e <= v.len(),
        forall|j: int| i <= j < e ==> is_digit(v[j]),
        e == v.len() || !is_digit(v[e]),
    ensures
        sp_digits(v.skip(i)) == (v.subrange(i, e), v.skip(e)),
    decreases e - i,
{
    if i == e {
        assert(v.subrange(i, e) =~= Seq::<char>::empty());
        if i < v.len() {
            lemma_skip_step(v, i);
        }
    } else {
        lemma_skip_step(v, i);
        lemma_sp_digits_run(v, i + 1, e);
        assert(seq![v[i]] + v.subrange(i + 1, e) =~= v.subrange(i, e));
    }
}

/// Parses an unsigned integer at position `i`.
fn ex_uint(cs: &Vec<char>, i: usize) -> (r: Option<(i64, usize)>)
    requires
        i <= cs@.len(),
    ensures
        match r {
            Some(p) => {
                &&& i < p.1 <= cs@.len()
                &&& p.0 >= 0
                &&& sp_uint(cs@.skip(i as int)) == Some((p.0 as int, cs@.skip(p.1 as int)))
            },
            None => sp_uint(cs@.skip(i as int)) is None,
        },
{
    let mut e: usize = i;
    while e < cs.len() && is_digit_exec(cs[e])
        invariant
            i <= e <= cs@.len(),
            forall|j: int| i <= j < e ==> is_digit(cs@[j]),
        decreases cs@.len() - e,
    {
        e += 1;
    }
    proof {
        lemma_sp_digits_run(cs@, i as int, e as int);
    }
    if e == i {
        return None;
    }
    if e - i > 18 {
        return None;
    }
    let mut acc: i64 = 0;
    let mut k: usize = i;
    while k < e
        invariant
            i <= k <= e <= cs@.len(),
            e - i <= 18,
            forall|j: int| i <= j < e ==> is_digit(cs@[j]),
            acc == dec_value(cs@.subrange(i as int, k as int)),
            0 <= acc,
        decreases e - k,
    {
        proof {
            lemma_dec_value_bound(cs@.subrange(i as int, k as int));
            lemma_pow10_le((k - i) as nat, 17);
            assert(pow10(17) == 100_000_000_000_000_000) by {
                reveal_with_fuel(pow10, 19);
            }
            assert(cs@.subrange(i as int, k + 1 as int).drop_last() =~= cs@.subrange(
                i as int,
                k as int,
            ));
            assert(cs@.subrange(i as int, k + 1 as int).last() == cs@[k as int]);
        }
        let d = (cs[k] as u32 - 48) as i64;
        acc = acc * 10 + d;
        k += 1;
    }
    Some((acc, e))
}

/// Parses an optionally signed integer at position `i`.
fn ex_int(cs: &Vec<char>, i: usize) -> (r: Option<(i64, usize)>)
    requires
        i <= cs@.len(),
    ensures
        match r {
            Some(p) => {
                &&& i < p.1 <= cs@.len()
                &&& sp_int(cs@.skip(i as int)) == Some((p.0 as int, cs@.skip(p.1 as int)))
            },
            None => sp_int(cs@.skip(i as int)) is None,
        },
{
    if i < cs.len() && cs[i] == '-' {
        proof {
            lemma_skip_step(cs@, i as int);
        }
        match ex_uint(cs, i + 1) {
            Some((n, j)) => Some((-n, j)),
            None => None,
        }
    } else {
        proof {
            if i < cs@.len() {
                lemma_skip_step(cs@, i as int);
            }
        }
        ex_uint(cs, i)
    }
}

/// Parses a boolean literal at position `i`.
fn ex_bool(cs: &Vec<char>, i: usize) -> (r: Option<(bool, usize)>)
    requires
        i <= cs@.len(),
    ensures
        match r {
            Some(p) => {
                &&& i < p.1 <= cs@.len()
                &&& sp_bool(cs@.skip(i as int)) == Some((p.0, cs@.skip(p.1 as int)))
            },
            None => sp_bool(cs@.skip(i as int)) is None,
        },
{
    let n = cs.len();
    let t = to_chars("true");
    let f = to_chars("false");
    proof {
        reveal_strlit("true");
        reveal_strlit("false");
        assert(cs@.skip(i as int).len() == cs@.len() - i);
        if cs@.skip(i as int).len() >= 4 {
            assert(cs@.skip(i as int).subrange(0, 4) =~= cs@.subrange(i as int, i + 4));
        }
        if cs@.skip(i as int).len() >= 5 {
            assert(cs@.skip(i as int).subrange(0, 5) =~= cs@.subrange(i as int, i + 5));
        }
    }
    if crate::text::match_at_idx(cs, &t, i) {
        proof {
            lemma_skip_skip(cs@, i as int, 4);
        }
        Some((true, i + 4))
    } else if crate::text::match_at_idx(cs, &f, i) {
        proof {
            lemma_skip_skip(cs@, i as int, 5);
        }
        Some((false, i + 5))
    } else {
        None
    }
}

/// The views of parsed array items.
pub open spec fn string_views(s: Seq<String>) -> Seq<Seq<char>> {
    s.map_values(|x: String| x@)
}

/// Parses the items of a string array at position `i` (just past the
/// opening bracket or a separating comma).
fn ex_str_items(cs: &Vec<char>, i: usize) -> (r: Option<(Vec<String>, usize)>)
    requires
        i <= cs@.len(),
    ensures
        match r {
            Some(p) => {
                &&& i < p.1 <= cs@.len()
                &&& sp_str_items(cs@.skip(i as int)) == Some((string_views(p.0@), cs@.skip(
                    p.1 as int,
                )))
            },
            None => sp_str_items(cs@.skip(i as int)) is None,
        },
    decreases cs@.len() - i,
{
    let j = ex_ws(cs, i);
    match ex_string(cs, j) {
        None => None,
        Some((content, j2)) => {
            let j3 = ex_ws(cs, j2);
            if j3 == cs.len() {
                proof {
                    assert(cs@.skip(j3 as int).len() == 0);
                }
                None
            } else {
                proof {
                    lemma_skip_step(cs@, j3 as int);
                }
                let c = cs[j3];
                if c == ',' {
                    match ex_str_items(cs, j3 + 1) {
                        Some((items, j4)) => {
                            let ghost tail = string_views(items@);
                            let mut items = items;
                            items.insert(0, from_chars(&content));
                            proof {
                                assert(string_views(items@) =~= seq![content@] + tail);
                            }
                            Some((items, j4))
                        },
                        None => None,
                    }
                } else if c == ']' {
                    let mut items: Vec<String> = Vec::new();
                    items.push(from_chars(&content));
                    proof {
                        assert(string_views(items@) =~= seq![content@]);
                    }
                    Some((items, j3 + 1))
                } else {
                    None
                }
            }
        },
    }
}

/// Parses a string array at position `i`, the opening bracket included.
fn ex_array(cs: &Vec<char>, i: usize) -> (r: Option<(Vec<String>, usize)>)
    requires
        i <= cs@.len(),
    ensures
        match r {
            Some(p) => {
                &&& i < p.1 <= cs@.len()
                &&& sp_array(cs@.skip(i as int)) == Some((string_views(p.0@), cs@.skip(
                    p.1 as int,
                )))
            },
            None => sp_array(cs@.skip(i as int)) is None,
        },
{
    if i == cs.len() {
        proof {
            assert(cs@.skip(i as int).len() == 0);
        }
        return None;
    }
    proof {
        lemma_skip_step(cs@, i as int);
    }
    if cs[i] != '[' {
        return None;
    }
    let j = ex_ws(cs, i + 1);
    if j < cs.len() {
        proof {
            lemma_skip_step(cs@, j as int);
        }
        let c = cs[j];
        if c == ']' {
            let items: Vec<String> = Vec::new();
            proof {
                assert(string_views(items@) =~= Seq::<Seq<char>>::empty());
            }
            return Some((items, j + 1));
        }
    }
    ex_str_items(cs, i + 1)
}

/// Parses one flat value at position `i`, leading whitespace included.
fn ex_value(cs: &Vec<char>, i: usize) -> (r: Option<(FlatVal, usize)>)
    requires
        i <= cs@.len(),
    ensures
        match r {
            Some(p) => {
                &&& i <= p.1 <= cs@.len()
                &&& sp_value(cs@.skip(i as int)) == Some((p.0@, cs@.skip(p.1 as int)))
            },
            None => sp_value(cs@.skip(i as int)) is None,
        },
{
    let j = ex_ws(cs, i);
    if j == cs.len() {
        proof {
            assert(cs@.skip(j as int).len() == 0);
        }
        return None;
    }
    proof {
        lemma_skip_step(cs@, j as int);
    }
    let c = cs[j];
    if c == '"' {
        match ex_string(cs, j) {
            Some((content, j2)) => Some((FlatVal::Str(from_chars(&content)), j2)),
            None => None,
        }
    } else if c == 't' || c == 'f' {
        match ex_bool(cs, j) {
            Some((b, j2)) => Some((FlatVal::Bool(b), j2)),
            None => None,
        }
    } else if c == '-' || is_digit_exec(c) {
        match ex_int(cs, j) {
            Some((n, j2)) => Some((FlatVal::Int(n), j2)),
            None => None,
        }
    } else if c == '[' {
        match ex_array(cs, j) {
            Some((items, j2)) => Some((FlatVal::StrArr(items), j2)),
            None => None,
        }
    } else {
        None
    }
}

/// The views of parsed members.
pub open spec fn pair_views(s: Seq<(String, FlatVal)>) -> Seq<(Seq<char>, FlatValView)> {
    s.map_values(|p: (String, FlatVal)| (p.0@, p.1@))
}

/// Parses the members of an object at position `i` (just past the opening
/// brace or a separating comma).
fn ex_members(cs: &Vec<char>, i: usize) -> (r: Option<(Vec<(String, FlatVal)>, usize)>)
    requires
        i <= cs@.len(),
    ensures
        match r {
            Some(p) => {
                &&& i < p.1 <= cs@.len()
                &&& sp_members(cs@.skip(i as int)) == Some((pair_views(p.0@), cs@.skip(
                    p.1 as int,
                )))
            },
            None => sp_members(cs@.skip(i as int)) is None,
        },
    decreases cs@.len() - i,
{
    let j = ex_ws(cs, i);
    match ex_string(cs, j) {
        None => None,
        Some((key, j2)) => {
            let j3 = ex_ws(cs, j2);
            if j3 == cs.len() {
                proof {
                    assert(cs@.skip(j3 as int).len() == 0);
                }
                return None;
            }
            proof {
                lemma_skip_step(cs@, j3 as int);
            }
            if cs[j3] != ':' {
                return None;
            }
            match ex_value(cs, j3 + 1) {
                None => None,
                Some((v, j4)) => {
                    let j5 = ex_ws(cs, j4);
                    if j5 == cs.len() {
                        proof {
                            assert(cs@.skip(j5 as int).len() == 0);
                        }
                        return None;
                    }
                    proof {
                        lemma_skip_step(cs@, j5 as int);
                    }
                    let c = cs[j5];
                    if c == ',' {
                        match ex_members(cs, j5 + 1) {
                            Some((ps, j6)) => {
                                let ghost tail = pair_views(ps@);
                                let mut ps = ps;
                                ps.insert(0, (from_chars(&key), v));
                                proof {
                                    assert(pair_views(ps@) =~= seq![(key@, v@)] + tail);
                                }
                                Some((ps, j6))
                            },
                            None => None,
                        }
                    } else if c == '}' {
                        let mut ps: Vec<(String, FlatVal)> = Vec::new();
                        ps.push((from_chars(&key), v));
                        proof {
                            assert(pair_views(ps@) =~= seq![(key@, v@)]);
                        }
                        Some((ps, j5 + 1))
                    } else {
                        None
                    }
                },
            }
        },
    }
}

/// Parses one whole flat object, leading whitespace included.
fn ex_object(cs: &Vec<char>, i: usize) -> (r: Option<(Vec<(String, FlatVal)>, usize)>)
    requires
        i <= cs@.len(),
    ensures
        match r {
            Some(p) => {
                &&& i < p.1 <= cs@.len()
                &&& sp_object(cs@.skip(i as int)) == Some((pair_views(p.0@), cs@.skip(
                    p.1 as int,
                )))
            },
            None => sp_object(cs@.skip(i as int)) is None,
        },
{
    let j = ex_ws(cs, i);
    if j == cs.len() {
        proof {
            assert(cs@.skip(j as int).len() == 0);
        }
        return None;
    }
    proof {
        lemma_skip_step(cs@, j as int);
    }
    if cs[j] != '{' {
        return None;
    }
    let j2 = ex_ws(cs, j + 1);
    if j2 < cs.len() {
        proof {
            lemma_skip_step(cs@, j2 as int);
        }
        let c = cs[j2];
        if c == '}' {
            let ps: Vec<(String, FlatVal)> = Vec::new();
            proof {
                assert(pair_views(ps@) =~= Seq::<(Seq<char>, FlatValView)>::empty());
            }
            return Some((ps, j2 + 1));
        }
    }
    ex_members(cs, j + 1)
}

/// Parses a whole input as one flat object with nothing but whitespace
/// after it.
pub fn parse_flat(body: &str) -> (r: Option<Vec<(String, FlatVal)>>)
    ensures
        match r {
            Some(ps) => spec_parse_flat(body@) == Some(pair_views(ps@)),
            None => spec_parse_flat(body@) is None,
        },
{
    let cs = to_chars(body);
    proof {
        assert(cs@.skip(0) =~= cs@);
    }
    match ex_object(&cs, 0) {
        None => None,
        Some((ps, j)) => {
            let j2 = ex_ws(&cs, j);
            if j2 == cs.len() {
                proof {
                    assert(sp_ws(cs@.skip(j as int)).len() == 0);
                }
                Some(ps)
            } else {
                proof {
                    assert(sp_ws(cs@.skip(j as int)).len() > 0);
                }
                None
            }
        },
    }
}

/// Looks up the first value bound to `key`.
fn lookup_flat<'a>(ps: &'a Vec<(String, FlatVal)>, key: &str) -> (r: Option<&'a FlatVal>)
    ensures
        match r {
            Some(v) => lookup_pairs(pair_views(ps@), key@) == Some(v@),
            None => lookup_pairs(pair_views(ps@), key@) is None,
        },
{
    proof {
        assert(pair_views(ps@).skip(0) =~= pair_views(ps@));
    }
    let mut i: usize = 0;
    while i < ps.len()
        invariant
            i <= ps@.len(),
            lookup_pairs(pair_views(ps@), key@) == lookup_pairs(
                pair_views(ps@).skip(i as int),
                key@,
            ),
        decreases ps@.len() - i,
    {
        proof {
            assert(pair_views(ps@)[i as int] == (ps@[i as int].0@, ps@[i as int].1@));
            assert(pair_views(ps@).skip(i as int)[0] == pair_views(ps@)[i as int]);
            assert(pair_views(ps@).skip(i as int).drop_first() =~= pair_views(ps@).skip(i + 1));
        }
        if crate::text::str_eq(ps[i].0.as_str(), key) {
            return Some(&ps[i].1);
        }
        i += 1;
    }
    proof {
        assert(pair_views(ps@).skip(i as int).len() == 0);
    }
    None
}

/// Reads the success shape out of a parsed flat object.
fn flat_to_ok(ps: &Vec<(String, FlatVal)>) -> (r: Option<OkResp>)
    ensures
        match r {
            Some(o) => to_ok(pair_views(ps@)) == Some(o@),
            None => to_ok(pair_views(ps@)) is None,
        },
{
    let username: String = match lookup_flat(ps, "username") {
        Some(FlatVal::Str(s)) => s.clone(),
        _ => {
            return None;
        },
    };
    let sync_token: String = match lookup_flat(ps, "syncToken") {
        Some(FlatVal::Str(s)) => s.clone(),
        _ => {
            return None;
        },
    };
    let locked: bool = match lookup_flat(ps, "locked") {
        Some(FlatVal::Bool(b)) => *b,
        _ => {
            return None;
        },
    };
    let redirect_to: String = match lookup_flat(ps, "redirectTo") {
        Some(FlatVal::Str(s)) => s.clone(),
        _ => {
            return None;
        },
    };
    Some(OkResp { username, sync_token, locked, redirect_to })
}

/// Reads the failure shape out of a parsed flat object.
fn flat_to_err(ps: &Vec<(String, FlatVal)>) -> (r: Option<ErrResp>)
    ensures
        match r {
            Some(e) => to_err(pair_views(ps@)) == Some(e@),
            None => to_err(pair_views(ps@)) is None,
        },
{
    let status64: i64 = match lookup_flat(ps, "status") {
        Some(FlatVal::Int(n)) => *n,
        _ => {
            return None;
        },
    };
    let data: String = match lookup_flat(ps, "data") {
        Some(FlatVal::Str(s)) => s.clone(),
        _ => {
            return None;
        },
    };
    let error_message: String = match lookup_flat(ps, "errorMessage") {
        Some(FlatVal::Str(s)) => s.clone(),
        _ => {
            return None;
        },
    };
    let trace: String = match lookup_flat(ps, "trace") {
        Some(FlatVal::Str(s)) => s.clone(),
        _ => {
            return None;
        },
    };
    let custom_data: Vec<String> = match lookup_flat(ps, "customData") {
        Some(FlatVal::StrArr(v)) => clone_strings(v),
        _ => {
            return None;
        },
    };
    if status64 < -2147483648 || status64 > 2147483647 {
        return None;
    }
    let status: i32 = status64 as i32;
    Some(ErrResp { status, data, error_message, trace, custom_data })
}

/// A copy of a vector of strings.
fn clone_strings(v: &Vec<String>) -> (r: Vec<String>)
    ensures
        r@ == v@,
{
    let mut r: Vec<String> = Vec::new();
    let mut i: usize = 0;
    while i < v.len()
        invariant
            i <= v@.len(),
            r@ == v@.subrange(0, i as int),
        decreases v@.len() - i,
    {
        r.push(v[i].clone());
        proof {
            assert(v@.subrange(0, i + 1 as int) =~= v@.subrange(0, i as int).push(v@[i as int]));
        }
        i += 1;
    }
    proof {
        assert(r@ =~= v@);
    }
    r
}

/// Decodes a login response body: the success shape is attempted first,
/// then the failure shape; anything else is rejected.
pub fn decode_login_response(body: &str) -> (r: Option<LoginResp>)
    ensures
        match r {
            Some(v) => spec_decode(body@) == Some(v@),
            None => spec_decode(body@) is None,
        },
{
    match parse_flat(body) {
        None => None,
        Some(ps) => {
            match flat_to_ok(&ps) {
                Some(o) => Some(LoginResp::Success(o)),
                None => match flat_to_err(&ps) {
                    Some(e) => Some(LoginResp::Failure(e)),
                    None => None,
                },
            }
        },
    }
}

// ---------------------------------------------------------------------------
// Encoding: the request envelope of the login submit, and the canonical
// encodings of the two response shapes that the round-trip law speaks of.
// ---------------------------------------------------------------------------

/// The encoding of one character inside a JSON string.
pub open spec fn esc_char(c: char) -> Seq<char> {
    if c == '"' {
        seq!['\\', '"']
    } else if c == '\\' {
        seq!['\\', '\\']
    } else if c == '\n' {
        seq!['\\', 'n']
    } else if c == '\r' {
        seq!['\\', 'r']
    } else if c == '\t' {
        seq!['\\', 't']
    } else if c == '\u{8}' {
        seq!['\\', 'b']
    } else if c == '\u{c}' {
        seq!['\\', 'f']
    } else {
        seq![c]
    }
}

/// A character whose encoding the decoder can read back: anything but the
/// control characters that have no short escape.
pub open spec fn enc_ok(c: char) -> bool {
    !is_ctl(c) || c == '\n' || c == '\r' || c == '\t' || c == '\u{8}' || c == '\u{c}'
}

/// Every character of the string survives an encode/decode round trip.
pub open spec fn json_clean(s: Seq<char>) -> bool {
    forall|i: int| 0 <= i < s.len() ==> enc_ok(s[i])
}

/// The encoding of a string's characters.
pub open spec fn enc_chars(s: Seq<char>) -> Seq<char>
    decreases s.len(),
{
    if s.len() == 0 {
        Seq::<char>::empty()
    } else {
        esc_char(s[0]) + enc_chars(s.drop_first())
    }
}

/// The encoding of a whole JSON string, quotes included.
pub open spec fn enc_json_string(s: Seq<char>) -> Seq<char> {
    seq!['"'] + enc_chars(s) + seq!['"']
}

/// Appends the JSON string encoding of `s` to `out`.
pub fn write_json_string(out: &mut String, s: &str)
    ensures
        final(out)@ == old(out)@ + enc_json_string(s@),
{
    push_char(out, '"');
    let cs = to_chars(s);
    proof {
        assert(cs@.skip(0) =~= cs@);
        assert(out@ =~= old(out)@ + seq!['"']);
    }
    let mut i: usize = 0;
    while i < cs.len()
        invariant
            i <= cs@.len(),
            cs@ == s@,
            out@ + enc_chars(cs@.skip(i as int)) == old(out)@ + seq!['"'] + enc_chars(cs@),
        decreases cs@.len() - i,
    {
        proof {
            assert(cs@.skip(i as int)[0] == cs@[i as int]);
            assert(cs@.skip(i as int).drop_first() =~= cs@.skip(i + 1));
        }
        let c = cs[i];
        if c == '"' {
            push_char(out, '\\');
            push_char(out, '"');
        } else if c == '\\' {
            push_char(out, '\\');
            push_char(out, '\\');
        } else if c == '\n' {
            push_char(out, '\\');
            push_char(out, 'n');
        } else if c == '\r' {
            push_char(out, '\\');
            push_char(out, 'r');
        } else if c == '\t' {
            push_char(out, '\\');
            push_char(out, 't');
        } else if c == '\u{8}' {
            push_char(out, '\\');
            push_char(out, 'b');
        } else if c == '\u{c}' {
            push_char(out, '\\');
            push_char(out, 'f');
        } else {
            push_char(out, c);
        }
        proof {
            assert(out@ + enc_chars(cs@.skip(i + 1)) =~= old(out)@ + seq!['"'] + enc_chars(cs@));
        }
        i += 1;
    }
    proof {
        assert(enc_chars(cs@.skip(i as int)).len() == 0);
        assert(out@ =~= old(out)@ + seq!['"'] + enc_chars(cs@));
    }
    push_char(out, '"');
    proof {
        assert(final(out)@ =~= old(out)@ + enc_json_string(s@));
    }
}

/// The JSON body of the login submit request.
pub open spec fn spec_login_request_body(u: Seq<char>, p: Seq<char>, c: Seq<char>) -> Seq<char> {
    "{\"username\":"@ + enc_json_string(u) + ",\"password\":"@ + enc_json_string(p)
        + ",\"captcha\":"@ + enc_json_string(c) + "}"@
}

/// Builds the JSON body of the login submit request.
pub fn login_request_body(username: &str, password: &str, captcha: &str) -> (r: String)
    ensures
        r@ == spec_login_request_body(username@, password@, captcha@),
{
    let mut out = String::new();
    out.append("{\"username\":");
    write_json_string(&mut out, username);
    out.append(",\"password\":");
    write_json_string(&mut out, password);
    out.append(",\"captcha\":");
    write_json_string(&mut out, captcha);
    out.append("}");
    proof {
        assert(out@ =~= spec_login_request_body(username@, password@, captcha@));
    }
    out
}

/// The encoding of a boolean.
pub open spec fn enc_bool(b: bool) -> Seq<char> {
    if b {
        "true"@
    } else {
        "false"@
    }
}

/// The encoding of the items of a string array, commas between them.
pub open spec fn enc_items(items: Seq<Seq<char>>) -> Seq<char>
    decreases items.len(),
{
    if items.len() == 0 {
        Seq::<char>::empty()
    } else if items.len() == 1 {
        enc_json_string(items[0])
    } else {
        enc_json_string(items[0]) + ","@ + enc_items(items.drop_first())
    }
}

/// The encoding of a string array, brackets included.
pub open spec fn enc_str_arr(items: Seq<Seq<char>>) -> Seq<char> {
    "["@ + enc_items(items) + "]"@
}

/// The encoding of one flat value.
pub open spec fn enc_value(v: FlatValView) -> Seq<char> {
    match v {
        FlatValView::Str(s) => enc_json_string(s),
        FlatValView::Int(n) => dec_int(n),
        FlatValView::Bool(b) => enc_bool(b),
        FlatValView::StrArr(items) => enc_str_arr(items),
    }
}

/// The encoding of an object's members, commas between them.
pub open spec fn enc_members(ps: Seq<(Seq<char>, FlatValView)>) -> Seq<char>
    decreases ps.len(),
{
    if ps.len() == 0 {
        Seq::<char>::empty()
    } else if ps.len() == 1 {
        enc_json_string(ps[0].0) + ":"@ + enc_value(ps[0].1)
    } else {
        enc_json_string(ps[0].0) + ":"@ + enc_value(ps[0].1) + ","@ + enc_members(ps.drop_first())
    }
}

/// The encoding of a whole flat object.
pub open spec fn enc_object(ps: Seq<(Seq<char>, FlatValView)>) -> Seq<char> {
    "{"@ + enc_members(ps) + "}"@
}

/// The members the success shape encodes to.
pub open spec fn ok_pairs(o: OkRespView) -> Seq<(Seq<char>, FlatValView)> {
    seq![
        ("username"@, FlatValView::Str(o.username)),
        ("syncToken"@, FlatValView::Str(o.sync_token)),
        ("locked"@, FlatValView::Bool(o.locked)),
        ("redirectTo"@, FlatValView::Str(o.redirect_to)),
    ]
}

/// The members the failure shape encodes to.
pub open spec fn err_pairs(e: ErrRespView) -> Seq<(Seq<char>, FlatValView)> {
    seq![
        ("status"@, FlatValView::Int(e.status)),
        ("data"@, FlatValView::Str(e.data)),
        ("errorMessage"@, FlatValView::Str(e.error_message)),
        ("trace"@, FlatValView::Str(e.trace)),
        ("customData"@, FlatValView::StrArr(e.custom_data)),
    ]
}

/// The canonical JSON encoding of a success response.
pub open spec fn spec_encode_ok(o: OkRespView) -> Seq<char> {
    enc_object(ok_pairs(o))
}

/// The canonical JSON encoding of a failure response.
pub open spec fn spec_encode_err(e: ErrRespView) -> Seq<char> {
    enc_object(err_pairs(e))
}

/// A value whose encoding the decoder reads back unchanged.
pub open spec fn clean_value(v: FlatValView) -> bool {
    match v {
        FlatValView::Str(s) => json_clean(s),
        FlatValView::Int(n) => i32::MIN <= n <= i32::MAX,
        FlatValView::Bool(b) => true,
        FlatValView::StrArr(items) => forall|j: int|
            0 <= j < items.len() ==> json_clean(items[j]),
    }
}

/// Members whose encoding the decoder reads back unchanged.
pub open spec fn clean_pairs(ps: Seq<(Seq<char>, FlatValView)>) -> bool {
    forall|j: int|
        0 <= j < ps.len() ==> json_clean((#[trigger] ps[j]).0) && clean_value(ps[j].1)
}

/// A success response every field of which round-trips.
pub open spec fn ok_clean(o: OkRespView) -> bool {
    json_clean(o.username) && json_clean(o.sync_token) && json_clean(o.redirect_to)
}

/// A failure response every field of which round-trips.
pub open spec fn err_clean(e: ErrRespView) -> bool {
    &&& i32::MIN <= e.status <= i32::MAX
    &&& json_clean(e.data)
    &&& json_clean(e.error_message)
    &&& json_clean(e.trace)
    &&& forall|j: int| 0 <= j < e.custom_data.len() ==> json_clean(e.custom_data[j])
}

// ---------------------------------------------------------------------------
// The round-trip law: the decoder reads the canonical encoding of either
// response shape back as exactly that response, and never as the other.
// ---------------------------------------------------------------------------

proof fn lemma_sp_ws_noop(s: Seq<char>)
    requires
        s.len() == 0 || !is_json_ws(s[0]),
    ensures
        sp_ws(s) == s,
{
}

proof fn lemma_parse_enc_str_body(v: Seq<char>, rest: Seq<char>)
    requires
        json_clean(v),
    ensures
        sp_str_body(enc_chars(v) + seq!['"'] + rest) == Some((v, rest)),
    decreases v.len(),
{
    let w = enc_chars(v) + seq!['"'] + rest;
    if v.len() == 0 {
        assert(enc_chars(v) =~= Seq::<char>::empty());
        assert(w[0] == '"');
        assert(w.drop_first() =~= rest);
    } else {
        let c = v[0];
        let v1 = v.drop_first();
        assert(enc_ok(c));
        assert(json_clean(v1)) by {
            assert(forall|j: int| 0 <= j < v1.len() ==> v1[j] == v[j + 1]);
        }
        lemma_parse_enc_str_body(v1, rest);
        let w1 = enc_chars(v1) + seq!['"'] + rest;
        assert(enc_chars(v) == esc_char(c) + enc_chars(v1));
        if c == '"' || c == '\\' || c == '\n' || c == '\r' || c == '\t' || c == '\u{8}' || c
            == '\u{c}' {
            assert(esc_char(c).len() == 2);
            assert(esc_char(c)[0] == '\\');
            assert(w[0] == '\\');
            assert(w[1] == esc_char(c)[1]);
            assert(unescape(esc_char(c)[1]) == Some(c));
            assert(w.skip(2) =~= w1);
            assert(seq![c] + v1 =~= v);
        } else {
            assert(esc_char(c) =~= seq![c]);
            assert(w[0] == c);
            assert(!is_ctl(c));
            assert(w.drop_first() =~= w1);
            assert(seq![c] + v1 =~= v);
        }
    }
}

proof fn lemma_parse_enc_string(v: Seq<char>, rest: Seq<char>)
    requires
        json_clean(v),
    ensures
        sp_string(enc_json_string(v) + rest) == Some((v, rest)),
{
    let w = enc_json_string(v) + rest;
    assert(w[0] == '"');
    assert(w.drop_first() =~= enc_chars(v) + seq!['"'] + rest);
    lemma_parse_enc_str_body(v, rest);
}

proof fn lemma_dec_nat_digits(n: int)
    requires
        n >= 0,
    ensures
        dec_nat(n).len() >= 1,
        forall|j: int| 0 <= j < dec_nat(n).len() ==> is_digit(#[trigger] dec_nat(n)[j]),
        dec_value(dec_nat(n)) == n,
    decreases n,
{
    if n < 10 {
        assert(dec_nat(n) =~= seq![dec_digit(n)]);
        assert(is_digit(dec_digit(n)) && digit_val(dec_digit(n)) == n);
        assert(dec_nat(n).drop_last() =~= Seq::<char>::empty());
        assert(dec_nat(n).last() == dec_digit(n));
        assert(dec_value(Seq::<char>::empty()) == 0);
        assert(dec_value(dec_nat(n)) == dec_value(dec_nat(n).drop_last()) * 10 + digit_val(
            dec_nat(n).last(),
        ));
    } else {
        lemma_dec_nat_digits(n / 10);
        let ds = dec_nat(n / 10);
        assert(dec_nat(n) == ds.push(dec_digit(n % 10)));
        assert(dec_nat(n).drop_last() =~= ds);
        assert(dec_nat(n).last() == dec_digit(n % 10));
        assert(is_digit(dec_digit(n % 10)) && digit_val(dec_digit(n % 10)) == n % 10);
        assert(dec_value(dec_nat(n)) == dec_value(ds) * 10 + (n % 10));
    }
}

proof fn lemma_dec_nat_len(n: int, k: nat)
    requires
        k >= 1,
        0 <= n < pow10(k),
    ensures
        dec_nat(n).len() <= k,
    decreases k,
{
    if n < 10 {
    } else {
        assert(pow10(1) == 10) by {
            reveal_with_fuel(pow10, 2);
        }
        if k == 1 {
            assert(false);
        }
        assert(pow10(k) == 10 * pow10((k - 1) as nat));
        assert(n / 10 < pow10((k - 1) as nat)) by (nonlinear_arith)
            requires
                n < 10 * pow10((k - 1) as nat),
                n >= 10,
        ;
        lemma_dec_nat_len(n / 10, (k - 1) as nat);
    }
}

proof fn lemma_sp_digits_prefix(ds: Seq<char>, rest: Seq<char>)
    requires
        forall|j: int| 0 <= j < ds.len() ==> is_digit(ds[j]),
        rest.len() == 0 || !is_digit(rest[0]),
    ensures
        sp_digits(ds + rest) == (ds, rest),
    decreases ds.len(),
{
    if ds.len() == 0 {
        assert(ds + rest =~= rest);
        assert(ds =~= Seq::<char>::empty());
    } else {
        assert((ds + rest)[0] == ds[0]);
        assert((ds + rest).drop_first() =~= ds.drop_first() + rest);
        assert(forall|j: int| 0 <= j < ds.drop_first().len() ==> is_digit(ds.drop_first()[j]));
        lemma_sp_digits_prefix(ds.drop_first(), rest);
        assert(seq![ds[0]] + ds.drop_first() =~= ds);
    }
}

proof fn lemma_parse_dec_int(n: int, rest: Seq<char>)
    requires
        i32::MIN <= n <= i32::MAX,
        rest.len() == 0 || !is_digit(rest[0]),
    ensures
        sp_int(dec_int(n) + rest) == Some((n, rest)),
{
    assert(pow10(10) == 10_000_000_000) by {
        reveal_with_fuel(pow10, 11);
    }
    if n >= 0 {
        lemma_dec_nat_digits(n);
        lemma_dec_nat_len(n, 10);
        lemma_sp_digits_prefix(dec_nat(n), rest);
        let w = dec_nat(n) + rest;
        assert(w[0] == dec_nat(n)[0]);
        assert(is_digit(w[0]));
        assert(w[0] != '-');
        assert(dec_int(n) + rest =~= w);
    } else {
        let m = -n;
        lemma_dec_nat_digits(m);
        lemma_dec_nat_len(m, 10);
        lemma_sp_digits_prefix(dec_nat(m), rest);
        let w = dec_int(n) + rest;
        assert(dec_int(n) == seq!['-'] + dec_nat(m));
        assert(w[0] == '-');
        assert(w.drop_first() =~= dec_nat(m) + rest);
    }
}

proof fn lemma_parse_enc_bool(b: bool, rest: Seq<char>)
    ensures
        sp_bool(enc_bool(b) + rest) == Some((b, rest)),
{
    reveal_strlit("true");
    reveal_strlit("false");
    let w = enc_bool(b) + rest;
    if b {
        assert(w.subrange(0, 4) =~= "true"@);
        assert(w.skip(4) =~= rest);
    } else {
        assert(w.subrange(0, 5) =~= "false"@);
        assert(w.skip(5) =~= rest);
        if w.len() >= 4 {
            assert(w.subrange(0, 4)[0] == 'f');
            assert(w.subrange(0, 4) != "true"@);
        }
    }
}

proof fn lemma_parse_enc_items(items: Seq<Seq<char>>, rest: Seq<char>)
    requires
        items.len() >= 1,
        forall|j: int| 0 <= j < items.len() ==> json_clean(#[trigger] items[j]),
    ensures
        sp_str_items(enc_items(items) + seq![']'] + rest) == Some((items, rest)),
    decreases items.len(),
{
    reveal_strlit(",");
    let w = enc_items(items) + seq![']'] + rest;
    if items.len() == 1 {
        let s2 = seq![']'] + rest;
        assert(w =~= enc_json_string(items[0]) + s2);
        lemma_parse_enc_string(items[0], s2);
        assert(w[0] == '"');
        lemma_sp_ws_noop(w);
        lemma_sp_ws_noop(s2);
        assert(s2[0] == ']');
        assert(s2.drop_first() =~= rest);
        assert(seq![items[0]] =~= items);
    } else {
        let tail = items.drop_first();
        assert(forall|j: int| 0 <= j < tail.len() ==> tail[j] == items[j + 1]);
        assert(enc_items(items) == enc_json_string(items[0]) + ","@ + enc_items(tail));
        let s2 = ","@ + enc_items(tail) + seq![']'] + rest;
        assert(w =~= enc_json_string(items[0]) + s2);
        lemma_parse_enc_string(items[0], s2);
        assert(w[0] == '"');
        lemma_sp_ws_noop(w);
        assert(s2[0] == ',');
        lemma_sp_ws_noop(s2);
        assert(s2.drop_first() =~= enc_items(tail) + seq![']'] + rest);
        lemma_parse_enc_items(tail, rest);
        assert(seq![items[0]] + tail =~= items);
    }
}

proof fn lemma_parse_enc_array(items: Seq<Seq<char>>, rest: Seq<char>)
    requires
        forall|j: int| 0 <= j < items.len() ==> json_clean(#[trigger] items[j]),
    ensures
        sp_array(enc_str_arr(items) + rest) == Some((items, rest)),
{
    reveal_strlit("[");
    reveal_strlit("]");
    let w = enc_str_arr(items) + rest;
    assert(w[0] == '[');
    if items.len() == 0 {
        assert(enc_items(items) =~= Seq::<char>::empty());
        assert(w.drop_first() =~= seq![']'] + rest);
        lemma_sp_ws_noop(w.drop_first());
        assert(w.drop_first()[0] == ']');
        assert(w.drop_first().drop_first() =~= rest);
        assert(items =~= Seq::<Seq<char>>::empty());
    } else {
        assert(w.drop_first() =~= enc_items(items) + seq![']'] + rest);
        assert(enc_items(items)[0] == '"');
        assert(w.drop_first()[0] == '"');
        lemma_sp_ws_noop(w.drop_first());
        lemma_parse_enc_items(items, rest);
    }
}

proof fn lemma_parse_enc_value(v: FlatValView, rest: Seq<char>)
    requires
        clean_value(v),
        rest.len() >= 1,
        !is_digit(rest[0]),
    ensures
        sp_value(enc_value(v) + rest) == Some((v, rest)),
{
    let w = enc_value(v) + rest;
    match v {
        FlatValView::Str(s) => {
            assert(w[0] == '"');
            lemma_sp_ws_noop(w);
            lemma_parse_enc_string(s, rest);
        },
        FlatValView::Bool(b) => {
            reveal_strlit("true");
            reveal_strlit("false");
            assert(w[0] == 't' || w[0] == 'f');
            lemma_sp_ws_noop(w);
            lemma_parse_enc_bool(b, rest);
        },
        FlatValView::Int(n) => {
            assert(pow10(10) == 10_000_000_000) by {
                reveal_with_fuel(pow10, 11);
            }
            if n >= 0 {
                lemma_dec_nat_digits(n);
                assert(w[0] == dec_nat(n)[0]);
                assert(is_digit(w[0]));
            } else {
                assert(dec_int(n) == seq!['-'] + dec_nat(-n));
                assert(w[0] == '-');
            }
            lemma_sp_ws_noop(w);
            lemma_parse_dec_int(n, rest);
        },
        FlatValView::StrArr(items) => {
            reveal_strlit("[");
            assert(w[0] == '[');
            lemma_sp_ws_noop(w);
            lemma_parse_enc_array(items, rest);
        },
    }
}

proof fn lemma_parse_enc_members(ps: Seq<(Seq<char>, FlatValView)>, rest: Seq<char>)
    requires
        ps.len() >= 1,
        clean_pairs(ps),
    ensures
        sp_members(enc_members(ps) + seq!['}'] + rest) == Some((ps, rest)),
    decreases ps.len(),
{
    reveal_strlit(":");
    reveal_strlit(",");
    let key = ps[0].0;
    let v = ps[0].1;
    assert(json_clean(key) && clean_value(v));
    let w = enc_members(ps) + seq!['}'] + rest;
    if ps.len() == 1 {
        assert(enc_members(ps) == enc_json_string(key) + ":"@ + enc_value(v));
        let after_key = ":"@ + enc_value(v) + seq!['}'] + rest;
        assert(w =~= enc_json_string(key) + after_key);
        lemma_parse_enc_string(key, after_key);
        assert(w[0] == '"');
        lemma_sp_ws_noop(w);
        lemma_sp_ws_noop(after_key);
        assert(after_key[0] == ':');
        let val_rest = seq!['}'] + rest;
        assert(after_key.drop_first() =~= enc_value(v) + val_rest);
        assert(!is_digit(val_rest[0]));
        lemma_parse_enc_value(v, val_rest);
        lemma_sp_ws_noop(val_rest);
        assert(val_rest[0] == '}');
        assert(val_rest.drop_first() =~= rest);
        assert(seq![(key, v)] =~= ps);
    } else {
        let tail = ps.drop_first();
        assert(forall|j: int| 0 <= j < tail.len() ==> tail[j] == ps[j + 1]);
        assert(clean_pairs(tail));
        assert(enc_members(ps) == enc_json_string(key) + ":"@ + enc_value(v) + ","@ + enc_members(
            tail,
        ));
        let after_key = ":"@ + enc_value(v) + ","@ + enc_members(tail) + seq!['}'] + rest;
        assert(w =~= enc_json_string(key) + after_key);
        lemma_parse_enc_string(key, after_key);
        assert(w[0] == '"');
        lemma_sp_ws_noop(w);
        lemma_sp_ws_noop(after_key);
        assert(after_key[0] == ':');
        let val_rest = ","@ + enc_members(tail) + seq!['}'] + rest;
        assert(after_key.drop_first() =~= enc_value(v) + val_rest);
        assert(!is_digit(val_rest[0]));
        lemma_parse_enc_value(v, val_rest);
        lemma_sp_ws_noop(val_rest);
        assert(val_rest[0] == ',');
        assert(val_rest.drop_first() =~= enc_members(tail) + seq!['}'] + rest);
        lemma_parse_enc_members(tail, rest);
        assert(seq![(key, v)] + tail =~= ps);
    }
}

proof fn lemma_parse_enc_flat(ps: Seq<(Seq<char>, FlatValView)>)
    requires
        clean_pairs(ps),
    ensures
        spec_parse_flat(enc_object(ps)) == Some(ps),
{
    reveal_strlit("{");
    reveal_strlit("}");
    let w = enc_object(ps);
    assert(w[0] == '{');
    lemma_sp_ws_noop(w);
    if ps.len() == 0 {
        assert(enc_members(ps) =~= Seq::<char>::empty());
        assert(w.drop_first() =~= seq!['}']);
        lemma_sp_ws_noop(w.drop_first());
        assert(w.drop_first()[0] == '}');
        assert(w.drop_first().drop_first() =~= Seq::<char>::empty());
        assert(ps =~= Seq::<(Seq<char>, FlatValView)>::empty());
    } else {
        assert(json_clean(ps[0].0));
        assert(w.drop_first() =~= enc_members(ps) + seq!['}'] + Seq::<char>::empty());
        assert(enc_members(ps)[0] == '"');
        assert(w.drop_first()[0] == '"');
        lemma_sp_ws_noop(w.drop_first());
        lemma_parse_enc_members(ps, Seq::<char>::empty());
    }
}

proof fn lemma_lookup_step(ps: Seq<(Seq<char>, FlatValView)>, key: Seq<char>)
    requires
        ps.len() > 0,
        ps[0].0 != key,
    ensures
        lookup_pairs(ps, key) == lookup_pairs(ps.drop_first(), key),
{
}

proof fn lemma_to_ok_of_pairs(o: OkRespView)
    ensures
        to_ok(ok_pairs(o)) == Some(o),
{
    reveal_strlit("username");
    reveal_strlit("syncToken");
    reveal_strlit("locked");
    reveal_strlit("redirectTo");
    let ps = ok_pairs(o);
    let p1 = ps.drop_first();
    let p2 = p1.drop_first();
    let p3 = p2.drop_first();
    assert(p1 =~= seq![
        ("syncToken"@, FlatValView::Str(o.sync_token)),
        ("locked"@, FlatValView::Bool(o.locked)),
        ("redirectTo"@, FlatValView::Str(o.redirect_to)),
    ]);
    assert(p2 =~= seq![
        ("locked"@, FlatValView::Bool(o.locked)),
        ("redirectTo"@, FlatValView::Str(o.redirect_to)),
    ]);
    assert(p3 =~= seq![("redirectTo"@, FlatValView::Str(o.redirect_to))]);
    assert("username"@.len() == 8 && "syncToken"@.len() == 9 && "locked"@.len() == 6
        && "redirectTo"@.len() == 10);
    assert(lookup_pairs(ps, "username"@) == Some(FlatValView::Str(o.username)));
    lemma_lookup_step(ps, "syncToken"@);
    assert(lookup_pairs(p1, "syncToken"@) == Some(FlatValView::Str(o.sync_token)));
    lemma_lookup_step(ps, "locked"@);
    lemma_lookup_step(p1, "locked"@);
    assert(lookup_pairs(p2, "locked"@) == Some(FlatValView::Bool(o.locked)));
    lemma_lookup_step(ps, "redirectTo"@);
    lemma_lookup_step(p1, "redirectTo"@);
    lemma_lookup_step(p2, "redirectTo"@);
    assert(lookup_pairs(p3, "redirectTo"@) == Some(FlatValView::Str(o.redirect_to)));
}

proof fn lemma_to_err_of_pairs(e: ErrRespView)
    requires
        i32::MIN <= e.status <= i32::MAX,
    ensures
        to_err(err_pairs(e)) == Some(e),
        to_ok(err_pairs(e)) is None,
{
    reveal_strlit("status");
    reveal_strlit("data");
    reveal_strlit("errorMessage");
    reveal_strlit("trace");
    reveal_strlit("customData");
    reveal_strlit("username");
    let ps = err_pairs(e);
    let p1 = ps.drop_first();
    let p2 = p1.drop_first();
    let p3 = p2.drop_first();
    let p4 = p3.drop_first();
    assert(p1 =~= seq![
        ("data"@, FlatValView::Str(e.data)),
        ("errorMessage"@, FlatValView::Str(e.error_message)),
        ("trace"@, FlatValView::Str(e.trace)),
        ("customData"@, FlatValView::StrArr(e.custom_data)),
    ]);
    assert(p2 =~= seq![
        ("errorMessage"@, FlatValView::Str(e.error_message)),
        ("trace"@, FlatValView::Str(e.trace)),
        ("customData"@, FlatValView::StrArr(e.custom_data)),
    ]);
    assert(p3 =~= seq![
        ("trace"@, FlatValView::Str(e.trace)),
        ("customData"@, FlatValView::StrArr(e.custom_data)),
    ]);
    assert(p4 =~= seq![("customData"@, FlatValView::StrArr(e.custom_data))]);
    assert("status"@.len() == 6 && "data"@.len() == 4 && "errorMessage"@.len() == 12
        && "trace"@.len() == 5 && "customData"@.len() == 10 && "username"@.len() == 8);
    assert(lookup_pairs(ps, "status"@) == Some(FlatValView::Int(e.status)));
    lemma_lookup_step(ps, "data"@);
    assert(lookup_pairs(p1, "data"@) == Some(FlatValView::Str(e.data)));
    lemma_lookup_step(ps, "errorMessage"@);
    lemma_lookup_step(p1, "errorMessage"@);
    assert(lookup_pairs(p2, "errorMessage"@) == Some(FlatValView::Str(e.error_message)));
    lemma_lookup_step(ps, "trace"@);
    lemma_lookup_step(p1, "trace"@);
    lemma_lookup_step(p2, "trace"@);
    assert(lookup_pairs(p3, "trace"@) == Some(FlatValView::Str(e.trace)));
    lemma_lookup_step(ps, "customData"@);
    lemma_lookup_step(p1, "customData"@);
    lemma_lookup_step(p2, "customData"@);
    lemma_lookup_step(p3, "customData"@);
    assert(lookup_pairs(p4, "customData"@) == Some(FlatValView::StrArr(e.custom_data)));
    lemma_lookup_step(ps, "username"@);
    lemma_lookup_step(p1, "username"@);
    lemma_lookup_step(p2, "username"@);
    lemma_lookup_step(p3, "username"@);
    lemma_lookup_step(p4, "username"@);
    assert(p4.drop_first().len() == 0);
    assert(lookup_pairs(p4.drop_first(), "username"@) is None);
}

/// Law (round trip, success): the decoder reads the canonical encoding of a
/// success response back as exactly that response, and never as a failure.
/// Holds of every response whose text fields carry no control characters
/// beyond the escapable ones.
pub proof fn lemma_decode_encode_ok(o: OkRespView)
    requires
        ok_clean(o),
    ensures
        spec_decode(spec_encode_ok(o)) == Some(LoginRespView::Success(o)),
{
    reveal_strlit("username");
    reveal_strlit("syncToken");
    reveal_strlit("locked");
    reveal_strlit("redirectTo");
    let ps = ok_pairs(o);
    assert(clean_pairs(ps)) by {
        assert(json_clean("username"@));
        assert(json_clean("syncToken"@));
        assert(json_clean("locked"@));
        assert(json_clean("redirectTo"@));
    }
    lemma_parse_enc_flat(ps);
    lemma_to_ok_of_pairs(o);
}

/// Law (round trip, failure): the decoder reads the canonical encoding of a
/// failure response back as exactly that response, and never as a success.
/// Holds of every response whose text fields carry no control characters
/// beyond the escapable ones.
pub proof fn lemma_decode_encode_err(e: ErrRespView)
    requires
        err_clean(e),
    ensures
        spec_decode(spec_encode_err(e)) == Some(LoginRespView::Failure(e)),
{
    reveal_strlit("status");
    reveal_strlit("data");
    reveal_strlit("errorMessage");
    reveal_strlit("trace");
    reveal_strlit("customData");
    let ps = err_pairs(e);
    assert(clean_pairs(ps)) by {
        assert(json_clean("status"@));
        assert(json_clean("data"@));
        assert(json_clean("errorMessage"@));
        assert(json_clean("trace"@));
        assert(json_clean("customData"@));
    }
    lemma_parse_enc_flat(ps);
    lemma_to_err_of_pairs(e);
}

} // verus!