//! The SMTP line parser: turns one CRLF-terminated byte line into a
//! command, or into the error response the line has earned. A line whose
//! verb is not recognized gets code 500; a recognized verb with
//! malformed arguments gets 501.

use vstd::prelude::*;
use crate::smtp::{Cmd, CmdV};
use crate::response::{Response, ResponseV, syntax_error, syntax_error_v, bad_arguments, bad_arguments_v};
use crate::sasl;

verus! {

broadcast use vstd::array::group_array_axioms;

// --- byte-level spec helpers ---

/// ASCII upper-casing of one byte.
pub open spec fn up(b: u8) -> u8 {
    if 97 <= b <= 122 {
        (b - 32) as u8
    } else {
        b
    }
}

/// ASCII upper-casing of a byte string.
pub open spec fn upper_seq(s: Seq<u8>) -> Seq<u8> {
    s.map(|_i: int, b: u8| up(b))
}

/// Index of the first occurrence of `t`, or the length when absent.
pub open spec fn find_byte(s: Seq<u8>, t: u8) -> int
    decreases s.len(),
{
    if s.len() == 0 {
        0
    } else if s[0] == t {
        0
    } else {
        1 + find_byte(s.skip(1), t)
    }
}

pub(crate) proof fn lemma_find_byte(s: Seq<u8>, t: u8)
    ensures
        0 <= find_byte(s, t) <= s.len(),
        forall|j: int| 0 <= j < find_byte(s, t) ==> s[j] != t,
        find_byte(s, t) < s.len() ==> s[find_byte(s, t)] == t,
    decreases s.len(),
{
    if s.len() > 0 && s[0] != t {
        lemma_find_byte(s.skip(1), t);
        assert forall|j: int| 0 <= j < find_byte(s, t) implies s[j] != t by {
            if j > 0 {
                assert(s.skip(1)[j - 1] == s[j]);
            }
        }
        if find_byte(s, t) < s.len() {
            assert(s.skip(1)[find_byte(s, t) - 1] == s[find_byte(s, t)]);
        }
    }
}

pub(crate) proof fn lemma_find_byte_at(s: Seq<u8>, t: u8, i: int)
    requires
        0 <= i <= s.len(),
        forall|j: int| 0 <= j < i ==> s[j] != t,
        i < s.len() ==> s[i] == t,
    ensures
        find_byte(s, t) == i,
{
    lemma_find_byte(s, t);
    if find_byte(s, t) < i {
        assert(s[find_byte(s, t)] != t);
    }
    if i < find_byte(s, t) {
        assert(s[i] != t);
    }
}

/// The string with its leading spaces removed.
pub open spec fn ltrim(s: Seq<u8>) -> Seq<u8>
    decreases s.len(),
{
    if s.len() > 0 && s[0] == 32 {
        ltrim(s.skip(1))
    } else {
        s
    }
}

pub(crate) proof fn lemma_ltrim_at(s: Seq<u8>, i: int)
    requires
        0 <= i <= s.len(),
        forall|j: int| 0 <= j < i ==> s[j] == 32,
        i < s.len() ==> s[i] != 32,
    ensures
        ltrim(s) == s.skip(i),
    decreases i,
{
    if i == 0 {
        assert(s.skip(0) =~= s);
    } else {
        assert(s[0] == 32);
        lemma_ltrim_at(s.skip(1), i - 1);
        assert(s.skip(1).skip(i - 1) =~= s.skip(i));
    }
}

/// A non-empty word of printable ASCII, as domains must be.
pub open spec fn is_token(s: Seq<u8>) -> bool {
    s.len() > 0 && forall|i: int| 0 <= i < s.len() ==> 33 <= #[trigger] s[i] <= 126
}

/// Printable ASCII free of `>`; what may stand between the angle
/// brackets of a path. The empty path (the null sender) is allowed.
pub open spec fn is_path(s: Seq<u8>) -> bool {
    forall|i: int| 0 <= i < s.len() ==> 33 <= #[trigger] s[i] <= 126 && s[i] != 62
}

// --- the verb and keyword literals ---

pub open spec fn crlf() -> Seq<u8> {
    seq![13u8, 10u8]
}

pub open spec fn lit_helo() -> Seq<u8> {
    seq![72u8, 69u8, 76u8, 79u8]
}

pub open spec fn lit_ehlo() -> Seq<u8> {
    seq![69u8, 72u8, 76u8, 79u8]
}

pub open spec fn lit_mail() -> Seq<u8> {
    seq![77u8, 65u8, 73u8, 76u8]
}

pub open spec fn lit_rcpt() -> Seq<u8> {
    seq![82u8, 67u8, 80u8, 84u8]
}

pub open spec fn lit_data() -> Seq<u8> {
    seq![68u8, 65u8, 84u8, 65u8]
}

pub open spec fn lit_rset() -> Seq<u8> {
    seq![82u8, 83u8, 69u8, 84u8]
}

pub open spec fn lit_quit() -> Seq<u8> {
    seq![81u8, 85u8, 73u8, 84u8]
}

pub open spec fn lit_noop() -> Seq<u8> {
    seq![78u8, 79u8, 79u8, 80u8]
}

pub open spec fn lit_vrfy() -> Seq<u8> {
    seq![86u8, 82u8, 70u8, 89u8]
}

pub open spec fn lit_starttls() -> Seq<u8> {
    seq![83u8, 84u8, 65u8, 82u8, 84u8, 84u8, 76u8, 83u8]
}

pub open spec fn lit_auth() -> Seq<u8> {
    seq![65u8, 85u8, 84u8, 72u8]
}

pub open spec fn lit_from() -> Seq<u8> {
    seq![70u8, 82u8, 79u8, 77u8, 58u8]
}

pub open spec fn lit_to() -> Seq<u8> {
    seq![84u8, 79u8, 58u8]
}

pub open spec fn lit_plain() -> Seq<u8> {
    seq![80u8, 76u8, 65u8, 73u8, 78u8]
}

pub open spec fn lit_login() -> Seq<u8> {
    seq![76u8, 79u8, 71u8, 73u8, 78u8]
}

pub open spec fn lit_body8() -> Seq<u8> {
    seq![66u8, 79u8, 68u8, 89u8, 61u8, 56u8, 66u8, 73u8, 84u8, 77u8, 73u8, 77u8, 69u8]
}

// --- the grammar, as spec functions ---

/// Whether the line carries the mandatory CRLF terminator.
pub open spec fn has_crlf(s: Seq<u8>) -> bool {
    s.len() >= 2 && s[s.len() - 2] == 13 && s[s.len() - 1] == 10
}

/// Splits the line body at the first space into the verb and the rest.
pub open spec fn split_verb(body: Seq<u8>) -> (Seq<u8>, Seq<u8>) {
    let k = find_byte(body, 32);
    (body.take(k), if k < body.len() {
        body.skip(k + 1)
    } else {
        seq![]
    })
}

/// Splits `<path>rest` into the path and the rest; `None` when the
/// brackets are not there.
pub open spec fn angle_split(s: Seq<u8>) -> Option<(Seq<u8>, Seq<u8>)> {
    if s.len() >= 1 && s[0] == 60 {
        let t = s.skip(1);
        let k = find_byte(t, 62);
        if k < t.len() {
            Some((t.take(k), t.skip(k + 1)))
        } else {
            None
        }
    } else {
        None
    }
}

pub open spec fn parse_hello_args(args: Seq<u8>, is_helo: bool) -> Result<CmdV, ResponseV> {
    let d = ltrim(args);
    if is_token(d) {
        Ok(
            if is_helo {
                CmdV::Helo { domain: d }
            } else {
                CmdV::Ehlo { domain: d }
            },
        )
    } else {
        Err(bad_arguments_v())
    }
}

pub open spec fn parse_bare(args: Seq<u8>, c: CmdV) -> Result<CmdV, ResponseV> {
    if ltrim(args).len() == 0 {
        Ok(c)
    } else {
        Err(bad_arguments_v())
    }
}

pub open spec fn parse_mail_args(args: Seq<u8>) -> Result<CmdV, ResponseV> {
    let a = ltrim(args);
    if a.len() >= 5 && upper_seq(a.take(5)) == lit_from() {
        match angle_split(ltrim(a.skip(5))) {
            Some((path, rest)) => {
                if is_path(path) {
                    let t = ltrim(rest);
                    if t.len() == 0 {
                        Ok(CmdV::Mail { reverse_path: path, is8bit: false })
                    } else if upper_seq(t) == lit_body8() {
                        Ok(CmdV::Mail { reverse_path: path, is8bit: true })
                    } else {
                        Err(bad_arguments_v())
                    }
                } else {
                    Err(bad_arguments_v())
                }
            },
            None => Err(bad_arguments_v()),
        }
    } else {
        Err(bad_arguments_v())
    }
}

pub open spec fn parse_rcpt_args(args: Seq<u8>) -> Result<CmdV, ResponseV> {
    let a = ltrim(args);
    if a.len() >= 3 && upper_seq(a.take(3)) == lit_to() {
        match angle_split(ltrim(a.skip(3))) {
            Some((path, rest)) => {
                if is_path(path) && ltrim(rest).len() == 0 {
                    Ok(CmdV::Rcpt { forward_path: path })
                } else {
                    Err(bad_arguments_v())
                }
            },
            None => Err(bad_arguments_v()),
        }
    } else {
        Err(bad_arguments_v())
    }
}

pub open spec fn parse_auth_args(args: Seq<u8>) -> Result<CmdV, ResponseV> {
    let a = ltrim(args);
    let (mech_raw, rest) = split_verb(a);
    let mech = upper_seq(mech_raw);
    let arg = ltrim(rest);
    if mech == lit_plain() {
        if arg.len() == 0 {
            Ok(CmdV::AuthPlainEmpty)
        } else {
            match sasl::decode_spec(arg) {
                Some(bytes) => {
                    let (z, n, p) = sasl::plain_fields(bytes);
                    Ok(CmdV::AuthPlain { authorization_id: z, authentication_id: n, password: p })
                },
                None => Err(bad_arguments_v()),
            }
        }
    } else if mech == lit_login() {
        if arg.len() == 0 {
            Ok(CmdV::AuthLoginEmpty)
        } else {
            match sasl::decode_spec(arg) {
                Some(u) => Ok(CmdV::AuthLogin { username: u }),
                None => Err(bad_arguments_v()),
            }
        }
    } else {
        Err(bad_arguments_v())
    }
}

/// What one SMTP line means: the command it encodes, or the error
/// response it is answered with.
pub open spec fn parse_spec(line: Seq<u8>) -> Result<CmdV, ResponseV> {
    if !has_crlf(line) {
        Err(syntax_error_v())
    } else {
        let body = line.take(line.len() - 2);
        let (verb_raw, args) = split_verb(body);
        let verb = upper_seq(verb_raw);
        if verb == lit_helo() {
            parse_hello_args(args, true)
        } else if verb == lit_ehlo() {
            parse_hello_args(args, false)
        } else if verb == lit_mail() {
            parse_mail_args(args)
        } else if verb == lit_rcpt() {
            parse_rcpt_args(args)
        } else if verb == lit_data() {
            parse_bare(args, CmdV::Data)
        } else if verb == lit_rset() {
            parse_bare(args, CmdV::Rset)
        } else if verb == lit_quit() {
            parse_bare(args, CmdV::Quit)
        } else if verb == lit_noop() {
            Ok(CmdV::Noop)
        } else if verb == lit_vrfy() {
            Ok(CmdV::Vrfy)
        } else if verb == lit_starttls() {
            parse_bare(args, CmdV::StartTls)
        } else if verb == lit_auth() {
            parse_auth_args(args)
        } else {
            Err(syntax_error_v())
        }
    }
}

/// What one line means inside a SASL exchange: the whole line is one
/// base64 payload; anything else earns 501.
pub open spec fn auth_response_spec(line: Seq<u8>) -> Result<Seq<u8>, ResponseV> {
    if !has_crlf(line) {
        Err(bad_arguments_v())
    } else {
        match sasl::decode_spec(line.take(line.len() - 2)) {
            Some(b) => Ok(b),
            None => Err(bad_arguments_v()),
        }
    }
}

// --- executable helpers ---

/// Copies `s[from..to]`.
pub(crate) fn subvec(s: &[u8], from: usize, to: usize) -> (r: Vec<u8>)
    requires
        from <= to <= s@.len(),
    ensures
        r@ == s@.subrange(from as int, to as int),
{
    let mut r: Vec<u8> = Vec::new();
    let mut i: usize = from;
    while i < to
        invariant
            from <= i <= to <= s@.len(),
            r@ =~= s@.subrange(from as int, i as int),
        decreases to - i,
    {
        r.push(s[i]);
        i = i + 1;
    }
    proof {
        assert(r@ =~= s@.subrange(from as int, to as int));
    }
    r
}

pub(crate) fn find_byte_x(s: &[u8], t: u8) -> (r: usize)
    ensures
        r == find_byte(s@, t),
{
    let mut i: usize = 0;
    while i < s.len() && s[i] != t
        invariant
            i <= s@.len(),
            forall|j: int| 0 <= j < i ==> s@[j] != t,
        decreases s.len() - i,
    {
        i = i + 1;
    }
    proof {
        lemma_find_byte_at(s@, t, i as int);
    }
    i
}

pub(crate) fn ltrim_x(s: &[u8]) -> (r: Vec<u8>)
    ensures
        r@ == ltrim(s@),
{
    let mut i: usize = 0;
    while i < s.len() && s[i] == 32
        invariant
            i <= s@.len(),
            forall|j: int| 0 <= j < i ==> s@[j] == 32,
        decreases s.len() - i,
    {
        i = i + 1;
    }
    proof {
        lemma_ltrim_at(s@, i as int);
        assert(s@.skip(i as int) =~= s@.subrange(i as int, s@.len() as int));
    }
    subvec(s, i, s.len())
}

fn upper_x(s: &[u8]) -> (r: Vec<u8>)
    ensures
        r@ == upper_seq(s@),
{
    let mut r: Vec<u8> = Vec::new();
    let mut i: usize = 0;
    while i < s.len()
        invariant
            i <= s@.len(),
            r@.len() == i,
            forall|j: int| 0 <= j < i ==> r@[j] == up(s@[j]),
        decreases s.len() - i,
    {
        let b = s[i];
        if 97 <= b && b <= 122 {
            r.push(b - 32);
        } else {
            r.push(b);
        }
        i = i + 1;
    }
    proof {
        assert(r@ =~= upper_seq(s@));
    }
    r
}

pub(crate) fn bytes_eq(a: &[u8], b: &[u8]) -> (r: bool)
    ensures
        r == (a@ == b@),
{
    if a.len() != b.len() {
        proof {
            assert(a@ != b@);
        }
        return false;
    }
    let mut i: usize = 0;
    while i < a.len()
        invariant
            a@.len() == b@.len(),
            i <= a@.len(),
            forall|j: int| 0 <= j < i ==> a@[j] == b@[j],
        decreases a.len() - i,
    {
        if a[i] != b[i] {
            proof {
                assert(a@ != b@);
            }
            return false;
        }
        i = i + 1;
    }
    proof {
        assert(a@ =~= b@);
    }
    true
}

fn is_token_x(s: &[u8]) -> (r: bool)
    ensures
        r == is_token(s@),
{
    if s.len() == 0 {
        return false;
    }
    let mut i: usize = 0;
    while i < s.len()
        invariant
            s@.len() > 0,
            i <= s@.len(),
            forall|j: int| 0 <= j < i ==> 33 <= #[trigger] s@[j] <= 126,
        decreases s.len() - i,
    {
        let b = s[i];
        if b < 33 || b > 126 {
            return false;
        }
        i = i + 1;
    }
    true
}

fn is_path_x(s: &[u8]) -> (r: bool)
    ensures
        r == is_path(s@),
{
    let mut i: usize = 0;
    while i < s.len()
        invariant
            i <= s@.len(),
            forall|j: int| 0 <= j < i ==> 33 <= #[trigger] s@[j] <= 126 && s@[j] != 62,
        decreases s.len() - i,
    {
        let b = s[i];
        if b < 33 || b > 126 || b == 62 {
            return false;
        }
        i = i + 1;
    }
    true
}

/// Splits the body at its first space; returns the verb and the rest.
fn split_verb_x(body: &[u8]) -> (r: (Vec<u8>, Vec<u8>))
    ensures
        (r.0@, r.1@) == split_verb(body@),
{
    let k = find_byte_x(body, 32);
    proof {
        lemma_find_byte(body@, 32);
        assert(body@.take(k as int) =~= body@.subrange(0, k as int));
    }
    let verb = subvec(body, 0, k);
    let args = if k < body.len() {
        proof {
            assert(body@.skip(k + 1) =~= body@.subrange(k + 1, body@.len() as int));
        }
        subvec(body, k + 1, body.len())
    } else {
        Vec::new()
    };
    proof {
        if k >= body@.len() {
            assert(args@ =~= split_verb(body@).1);
        }
    }
    (verb, args)
}

fn angle_split_x(s: &[u8]) -> (r: Option<(Vec<u8>, Vec<u8>)>)
    ensures
        match r {
            Some(pr) => angle_split(s@) == Some((pr.0@, pr.1@)),
            None => angle_split(s@) is None,
        },
{
    if s.len() == 0 || s[0] != 60 {
        return None;
    }
    let t = subvec(s, 1, s.len());
    proof {
        assert(t@ =~= s@.skip(1));
    }
    let k = find_byte_x(t.as_slice(), 62);
    proof {
        lemma_find_byte(t@, 62);
    }
    if k == t.len() {
        return None;
    }
    proof {
        assert(t@.take(k as int) =~= t@.subrange(0, k as int));
        assert(t@.skip(k + 1) =~= t@.subrange(k + 1, t@.len() as int));
    }
    let path = subvec(t.as_slice(), 0, k);
    let rest = subvec(t.as_slice(), k + 1, t.len());
    Some((path, rest))
}

// --- the parser itself ---

/// The view of a parse result.
pub open spec fn parse_result_v(r: Result<Cmd, Response>) -> Result<CmdV, ResponseV> {
    match r {
        Ok(c) => Ok(c@),
        Err(e) => Err(e@),
    }
}

/// Parses one CRLF-terminated line into a command, per [`parse_spec`].
pub fn parse(line: &[u8]) -> (r: Result<Cmd, Response>)
    ensures
        parse_result_v(r) == parse_spec(line@),
{
    let n = line.len();
    if n < 2 || line[n - 2] != 13 || line[n - 1] != 10 {
        return Err(syntax_error());
    }
    let body = subvec(line, 0, n - 2);
    proof {
        assert(body@ =~= line@.take(line@.len() - 2));
    }
    let (verb_raw, args) = split_verb_x(body.as_slice());
    let verb = upper_x(verb_raw.as_slice());
    let vs = verb.as_slice();
    let lit_helo_x: [u8; 4] = [72, 69, 76, 79];
    let lit_ehlo_x: [u8; 4] = [69, 72, 76, 79];
    let lit_mail_x: [u8; 4] = [77, 65, 73, 76];
    let lit_rcpt_x: [u8; 4] = [82, 67, 80, 84];
    let lit_data_x: [u8; 4] = [68, 65, 84, 65];
    let lit_rset_x: [u8; 4] = [82, 83, 69, 84];
    let lit_quit_x: [u8; 4] = [81, 85, 73, 84];
    let lit_noop_x: [u8; 4] = [78, 79, 79, 80];
    let lit_vrfy_x: [u8; 4] = [86, 82, 70, 89];
    let lit_starttls_x: [u8; 8] = [83, 84, 65, 82, 84, 84, 76, 83];
    let lit_auth_x: [u8; 4] = [65, 85, 84, 72];
    proof {
        assert(lit_helo_x@ =~= lit_helo());
        assert(lit_ehlo_x@ =~= lit_ehlo());
        assert(lit_mail_x@ =~= lit_mail());
        assert(lit_rcpt_x@ =~= lit_rcpt());
        assert(lit_data_x@ =~= lit_data());
        assert(lit_rset_x@ =~= lit_rset());
        assert(lit_quit_x@ =~= lit_quit());
        assert(lit_noop_x@ =~= lit_noop());
        assert(lit_vrfy_x@ =~= lit_vrfy());
        assert(lit_starttls_x@ =~= lit_starttls());
        assert(lit_auth_x@ =~= lit_auth());
    }
    if bytes_eq(vs, lit_helo_x.as_slice()) {
        parse_hello_args_x(args, true)
    } else if bytes_eq(vs, lit_ehlo_x.as_slice()) {
        parse_hello_args_x(args, false)
    } else if bytes_eq(vs, lit_mail_x.as_slice()) {
        parse_mail_args_x(args)
    } else if bytes_eq(vs, lit_rcpt_x.as_slice()) {
        parse_rcpt_args_x(args)
    } else if bytes_eq(vs, lit_data_x.as_slice()) {
        parse_bare_x(args, Cmd::Data)
    } else if bytes_eq(vs, lit_rset_x.as_slice()) {
        parse_bare_x(args, Cmd::Rset)
    } else if bytes_eq(vs, lit_quit_x.as_slice()) {
        parse_bare_x(args, Cmd::Quit)
    } else if bytes_eq(vs, lit_noop_x.as_slice()) {
        Ok(Cmd::Noop)
    } else if bytes_eq(vs, lit_vrfy_x.as_slice()) {
        Ok(Cmd::Vrfy)
    } else if bytes_eq(vs, lit_starttls_x.as_slice()) {
        parse_bare_x(args, Cmd::StartTls)
    } else if bytes_eq(vs, lit_auth_x.as_slice()) {
        parse_auth_args_x(args)
    } else {
        Err(syntax_error())
    }
}

fn parse_hello_args_x(args: Vec<u8>, is_helo: bool) -> (r: Result<Cmd, Response>)
    ensures
        parse_result_v(r) == parse_hello_args(args@, is_helo),
{
    let d = ltrim_x(args.as_slice());
    if is_token_x(d.as_slice()) {
        if is_helo {
            Ok(Cmd::Helo { domain: d })
        } else {
            Ok(Cmd::Ehlo { domain: d })
        }
    } else {
        Err(bad_arguments())
    }
}

fn parse_bare_x(args: Vec<u8>, c: Cmd) -> (r: Result<Cmd, Response>)
    ensures
        parse_result_v(r) == parse_bare(args@, c@),
{
    let d = ltrim_x(args.as_slice());
    if d.len() == 0 {
        Ok(c)
    } else {
        Err(bad_arguments())
    }
}

fn parse_mail_args_x(args: Vec<u8>) -> (r: Result<Cmd, Response>)
    ensures
        parse_result_v(r) == parse_mail_args(args@),
{
    let a = ltrim_x(args.as_slice());
    let lit_from_x: [u8; 5] = [70, 82, 79, 77, 58];
    proof {
        assert(lit_from_x@ =~= lit_from());
    }
    if a.len() < 5 {
        return Err(bad_arguments());
    }
    proof {
        assert(a@.take(5) =~= a@.subrange(0, 5));
        assert(a@.skip(5) =~= a@.subrange(5, a@.len() as int));
    }
    let head = upper_x(subvec(a.as_slice(), 0, 5).as_slice());
    if !bytes_eq(head.as_slice(), lit_from_x.as_slice()) {
        return Err(bad_arguments());
    }
    let b = ltrim_x(subvec(a.as_slice(), 5, a.len()).as_slice());
    match angle_split_x(b.as_slice()) {
        Some((path, rest)) => {
            if !is_path_x(path.as_slice()) {
                return Err(bad_arguments());
            }
            let t = ltrim_x(rest.as_slice());
            if t.len() == 0 {
                Ok(Cmd::Mail { reverse_path: path, is8bit: false })
            } else {
                let lit_body8_x: [u8; 13] = [66, 79, 68, 89, 61, 56, 66, 73, 84, 77, 73, 77, 69];
                proof {
                    assert(lit_body8_x@ =~= lit_body8());
                }
                let tu = upper_x(t.as_slice());
                if bytes_eq(tu.as_slice(), lit_body8_x.as_slice()) {
                    Ok(Cmd::Mail { reverse_path: path, is8bit: true })
                } else {
                    Err(bad_arguments())
                }
            }
        },
        None => Err(bad_arguments()),
    }
}

fn parse_rcpt_args_x(args: Vec<u8>) -> (r: Result<Cmd, Response>)
    ensures
        parse_result_v(r) == parse_rcpt_args(args@),
{
    let a = ltrim_x(args.as_slice());
    let lit_to_x: [u8; 3] = [84, 79, 58];
    proof {
        assert(lit_to_x@ =~= lit_to());
    }
    if a.len() < 3 {
        return Err(bad_arguments());
    }
    proof {
        assert(a@.take(3) =~= a@.subrange(0, 3));
        assert(a@.skip(3) =~= a@.subrange(3, a@.len() as int));
    }
    let head = upper_x(subvec(a.as_slice(), 0, 3).as_slice());
    if !bytes_eq(head.as_slice(), lit_to_x.as_slice()) {
        return Err(bad_arguments());
    }
    let b = ltrim_x(subvec(a.as_slice(), 3, a.len()).as_slice());
    match angle_split_x(b.as_slice()) {
        Some((path, rest)) => {
            let t = ltrim_x(rest.as_slice());
            if is_path_x(path.as_slice()) && t.len() == 0 {
                Ok(Cmd::Rcpt { forward_path: path })
            } else {
                Err(bad_arguments())
            }
        },
        None => Err(bad_arguments()),
    }
}

fn parse_auth_args_x(args: Vec<u8>) -> (r: Result<Cmd, Response>)
    ensures
        parse_result_v(r) == parse_auth_args(args@),
{
    let a = ltrim_x(args.as_slice());
    let (mech_raw, rest) = split_verb_x(a.as_slice());
    let mech = upper_x(mech_raw.as_slice());
    let arg = ltrim_x(rest.as_slice());
    let lit_plain_x: [u8; 5] = [80, 76, 65, 73, 78];
    let lit_login_x: [u8; 5] = [76, 79, 71, 73, 78];
    proof {
        assert(lit_plain_x@ =~= lit_plain());
        assert(lit_login_x@ =~= lit_login());
    }
    if bytes_eq(mech.as_slice(), lit_plain_x.as_slice()) {
        if arg.len() == 0 {
            Ok(Cmd::AuthPlainEmpty)
        } else {
            match sasl::b64_decode(arg.as_slice()) {
                Some(bytes) => {
                    let creds = sasl::decode_sasl_plain(bytes.as_slice());
                    Ok(Cmd::AuthPlain {
                        authorization_id: creds.authorization_id,
                        authentication_id: creds.authentication_id,
                        password: creds.password,
                    })
                },
                None => Err(bad_arguments()),
            }
        }
    } else if bytes_eq(mech.as_slice(), lit_login_x.as_slice()) {
        if arg.len() == 0 {
            Ok(Cmd::AuthLoginEmpty)
        } else {
            match sasl::b64_decode(arg.as_slice()) {
                Some(u) => Ok(Cmd::AuthLogin { username: u }),
                None => Err(bad_arguments()),
            }
        }
    } else {
        Err(bad_arguments())
    }
}

// --- command formatting and the round-trip law ---

/// The canonical wire form of a command; `None` for the arms that only
/// arise inside the server (markers, SASL material).
pub open spec fn format_spec(c: CmdV) -> Option<Seq<u8>> {
    match c {
        CmdV::Helo { domain } => Some(lit_helo() + seq![32u8] + domain + crlf()),
        CmdV::Ehlo { domain } => Some(lit_ehlo() + seq![32u8] + domain + crlf()),
        CmdV::Mail { reverse_path, is8bit } => Some(
            lit_mail() + seq![32u8] + lit_from() + seq![60u8] + reverse_path + seq![62u8] + (
            if is8bit {
                seq![32u8] + lit_body8()
            } else {
                Seq::<u8>::empty()
            }) + crlf(),
        ),
        CmdV::Rcpt { forward_path } => Some(
            lit_rcpt() + seq![32u8] + lit_to() + seq![60u8] + forward_path + seq![62u8] + crlf(),
        ),
        CmdV::Rset => Some(lit_rset() + crlf()),
        CmdV::Quit => Some(lit_quit() + crlf()),
        CmdV::Noop => Some(lit_noop() + crlf()),
        _ => None,
    }
}

/// The command forms whose wire image parses back to themselves: their
/// payloads must be well formed.
pub open spec fn round_trippable(c: CmdV) -> bool {
    match c {
        CmdV::Helo { domain } => is_token(domain),
        CmdV::Ehlo { domain } => is_token(domain),
        CmdV::Mail { reverse_path, is8bit } => is_path(reverse_path),
        CmdV::Rcpt { forward_path } => is_path(forward_path),
        CmdV::Rset | CmdV::Quit | CmdV::Noop => true,
        _ => false,
    }
}

proof fn lemma_upper_fixed(s: Seq<u8>)
    requires
        forall|i: int| 0 <= i < s.len() ==> !(97 <= #[trigger] s[i] <= 122),
    ensures
        upper_seq(s) == s,
{
    assert(upper_seq(s) =~= s);
}

proof fn lemma_hello_round_trip(line: Seq<u8>, verb_lit: Seq<u8>, domain: Seq<u8>)
    requires
        is_token(domain),
        verb_lit.len() == 4,
        forall|i: int| 0 <= i < 4 ==> 65 <= #[trigger] verb_lit[i] <= 90,
        line == verb_lit + seq![32u8] + domain + crlf(),
    ensures
        has_crlf(line),
        upper_seq(split_verb(line.take(line.len() - 2)).0) == verb_lit,
        ltrim(split_verb(line.take(line.len() - 2)).1) == domain,
{
    let body = line.take(line.len() - 2);
    assert(body =~= verb_lit + seq![32u8] + domain);
    lemma_find_byte_at(body, 32, 4);
    let (verb_raw, args) = split_verb(body);
    assert(verb_raw =~= verb_lit);
    lemma_upper_fixed(verb_lit);
    assert(args =~= domain);
    lemma_ltrim_at(domain, 0);
}

proof fn lemma_rt_hello(domain: Seq<u8>, is_helo: bool)
    requires
        is_token(domain),
    ensures
        ({
            let c: CmdV = if is_helo {
                CmdV::Helo { domain }
            } else {
                CmdV::Ehlo { domain }
            };
            parse_spec(format_spec(c).unwrap()) == Ok::<CmdV, ResponseV>(c)
        }),
{
    let c: CmdV = if is_helo {
        CmdV::Helo { domain }
    } else {
        CmdV::Ehlo { domain }
    };
    let line = format_spec(c).unwrap();
    if is_helo {
        lemma_hello_round_trip(line, lit_helo(), domain);
    } else {
        lemma_hello_round_trip(line, lit_ehlo(), domain);
        assert(lit_ehlo()[0] != lit_helo()[0]);
    }
}

#[verifier::rlimit(100)]
proof fn lemma_rt_mail(rp: Seq<u8>, is8bit: bool)
    requires
        is_path(rp),
    ensures
        parse_spec(format_spec(CmdV::Mail { reverse_path: rp, is8bit }).unwrap())
            == Ok::<CmdV, ResponseV>(CmdV::Mail { reverse_path: rp, is8bit }),
{
    let line = format_spec(CmdV::Mail { reverse_path: rp, is8bit }).unwrap();
    let opt: Seq<u8> = if is8bit {
        seq![32u8] + lit_body8()
    } else {
        Seq::<u8>::empty()
    };
    let body = line.take(line.len() - 2);
    assert(body =~= lit_mail() + seq![32u8] + lit_from() + seq![60u8] + rp + seq![62u8] + opt);
    lemma_find_byte_at(body, 32, 4);
    let (verb_raw, args) = split_verb(body);
    assert(verb_raw =~= lit_mail());
    lemma_upper_fixed(lit_mail());
    assert(lit_mail()[0] != lit_helo()[0]);
    assert(lit_mail()[0] != lit_ehlo()[0]);
    assert(args =~= lit_from() + seq![60u8] + rp + seq![62u8] + opt);
    lemma_ltrim_at(args, 0);
    let a = ltrim(args);
    assert(a.take(5) =~= lit_from());
    lemma_upper_fixed(lit_from());
    let after = a.skip(5);
    assert(after =~= seq![60u8] + rp + seq![62u8] + opt);
    lemma_ltrim_at(after, 0);
    let t = after.skip(1);
    assert(t =~= rp + seq![62u8] + opt);
    lemma_find_byte_at(t, 62, rp.len() as int);
    assert(t.take(rp.len() as int) =~= rp);
    let rest = t.skip(rp.len() as int + 1);
    assert(rest =~= opt);
    if is8bit {
        assert(opt[0] == 32 && opt[1] == 66);
        lemma_ltrim_at(opt, 1);
        assert(ltrim(opt) =~= lit_body8());
        lemma_upper_fixed(lit_body8());
    } else {
        assert(ltrim(rest).len() == 0);
    }
}

proof fn lemma_rt_rcpt(fp: Seq<u8>)
    requires
        is_path(fp),
    ensures
        parse_spec(format_spec(CmdV::Rcpt { forward_path: fp }).unwrap())
            == Ok::<CmdV, ResponseV>(CmdV::Rcpt { forward_path: fp }),
{
    let line = format_spec(CmdV::Rcpt { forward_path: fp }).unwrap();
    let body = line.take(line.len() - 2);
    assert(body =~= lit_rcpt() + seq![32u8] + lit_to() + seq![60u8] + fp + seq![62u8]);
    lemma_find_byte_at(body, 32, 4);
    let (verb_raw, args) = split_verb(body);
    assert(verb_raw =~= lit_rcpt());
    lemma_upper_fixed(lit_rcpt());
    assert(lit_rcpt()[0] != lit_helo()[0]);
    assert(lit_rcpt()[0] != lit_ehlo()[0]);
    assert(lit_rcpt()[0] != lit_mail()[0]);
    assert(args =~= lit_to() + seq![60u8] + fp + seq![62u8]);
    lemma_ltrim_at(args, 0);
    let a = ltrim(args);
    assert(a.take(3) =~= lit_to());
    lemma_upper_fixed(lit_to());
    let after = a.skip(3);
    assert(after =~= seq![60u8] + fp + seq![62u8]);
    lemma_ltrim_at(after, 0);
    let t = after.skip(1);
    assert(t =~= fp + seq![62u8]);
    lemma_find_byte_at(t, 62, fp.len() as int);
    assert(t.take(fp.len() as int) =~= fp);
    let rest = t.skip(fp.len() as int + 1);
    assert(rest =~= Seq::<u8>::empty());
}

proof fn lemma_rt_rset()
    ensures
        parse_spec(format_spec(CmdV::Rset).unwrap()) == Ok::<CmdV, ResponseV>(CmdV::Rset),
{
    let line = format_spec(CmdV::Rset).unwrap();
    lemma_bare_round_trip(line, lit_rset());
    assert(lit_rset()[0] != lit_helo()[0]);
    assert(lit_rset()[0] != lit_ehlo()[0]);
    assert(lit_rset()[0] != lit_mail()[0]);
    assert(lit_rset()[1] != lit_rcpt()[1]);
    assert(lit_rset()[0] != lit_data()[0]);
}

proof fn lemma_rt_quit()
    ensures
        parse_spec(format_spec(CmdV::Quit).unwrap()) == Ok::<CmdV, ResponseV>(CmdV::Quit),
{
    let line = format_spec(CmdV::Quit).unwrap();
    lemma_bare_round_trip(line, lit_quit());
    assert(lit_quit()[0] != lit_helo()[0]);
    assert(lit_quit()[0] != lit_ehlo()[0]);
    assert(lit_quit()[0] != lit_mail()[0]);
    assert(lit_quit()[0] != lit_rcpt()[0]);
    assert(lit_quit()[0] != lit_data()[0]);
    assert(lit_quit()[0] != lit_rset()[0]);
}

proof fn lemma_rt_noop()
    ensures
        parse_spec(format_spec(CmdV::Noop).unwrap()) == Ok::<CmdV, ResponseV>(CmdV::Noop),
{
    let line = format_spec(CmdV::Noop).unwrap();
    lemma_bare_round_trip(line, lit_noop());
    assert(lit_noop()[0] != lit_helo()[0]);
    assert(lit_noop()[0] != lit_ehlo()[0]);
    assert(lit_noop()[0] != lit_mail()[0]);
    assert(lit_noop()[0] != lit_rcpt()[0]);
    assert(lit_noop()[0] != lit_data()[0]);
    assert(lit_noop()[0] != lit_rset()[0]);
    assert(lit_noop()[0] != lit_quit()[0]);
}

/// Law: every round-trippable command parses back from its canonical
/// wire form unchanged.
pub proof fn lemma_parse_format_round_trip(c: CmdV)
    requires
        round_trippable(c),
    ensures
        format_spec(c) is Some,
        parse_spec(format_spec(c).unwrap()) == Ok::<CmdV, ResponseV>(c),
{
    match c {
        CmdV::Helo { domain } => lemma_rt_hello(domain, true),
        CmdV::Ehlo { domain } => lemma_rt_hello(domain, false),
        CmdV::Mail { reverse_path, is8bit } => lemma_rt_mail(reverse_path, is8bit),
        CmdV::Rcpt { forward_path } => lemma_rt_rcpt(forward_path),
        CmdV::Rset => lemma_rt_rset(),
        CmdV::Quit => lemma_rt_quit(),
        CmdV::Noop => lemma_rt_noop(),
        _ => {
            assert(false);
        },
    }
}

proof fn lemma_bare_round_trip(line: Seq<u8>, verb_lit: Seq<u8>)
    requires
        verb_lit.len() == 4,
        forall|i: int| 0 <= i < 4 ==> 65 <= #[trigger] verb_lit[i] <= 90,
        line == verb_lit + crlf(),
    ensures
        has_crlf(line),
        split_verb(line.take(line.len() - 2)).0 == verb_lit,
        upper_seq(split_verb(line.take(line.len() - 2)).0) == verb_lit,
        ltrim(split_verb(line.take(line.len() - 2)).1).len() == 0,
{
    let body = line.take(line.len() - 2);
    assert(body =~= verb_lit);
    lemma_find_byte_at(body, 32, 4);
    let (verb_raw, args) = split_verb(body);
    assert(verb_raw =~= verb_lit);
    lemma_upper_fixed(verb_lit);
    assert(args =~= Seq::<u8>::empty());
}

/// Appends a slice to a byte vector.
pub(crate) fn push_all(out: &mut Vec<u8>, bytes: &[u8])
    ensures
        final(out)@ == old(out)@ + bytes@,
{
    let mut i: usize = 0;
    while i < bytes.len()
        invariant
            i <= bytes@.len(),
            out@ =~= old(out)@ + bytes@.take(i as int),
        decreases bytes.len() - i,
    {
        out.push(bytes[i]);
        i = i + 1;
    }
    proof {
        assert(out@ =~= old(out)@ + bytes@);
    }
}

/// Writes a command in its canonical wire form, for the arms that have
/// one.
pub fn format_cmd(c: &Cmd) -> (r: Option<Vec<u8>>)
    ensures
        match r {
            Some(v) => format_spec(c@) == Some(v@),
            None => format_spec(c@) is None,
        },
{
    let crlf_x: [u8; 2] = [13, 10];
    let lit_helo_x: [u8; 4] = [72, 69, 76, 79];
    let lit_ehlo_x: [u8; 4] = [69, 72, 76, 79];
    let lit_mail_x: [u8; 4] = [77, 65, 73, 76];
    let lit_rcpt_x: [u8; 4] = [82, 67, 80, 84];
    let lit_rset_x: [u8; 4] = [82, 83, 69, 84];
    let lit_quit_x: [u8; 4] = [81, 85, 73, 84];
    let lit_noop_x: [u8; 4] = [78, 79, 79, 80];
    let lit_from_x: [u8; 5] = [70, 82, 79, 77, 58];
    let lit_to_x: [u8; 3] = [84, 79, 58];
    let lit_body8_x: [u8; 13] = [66, 79, 68, 89, 61, 56, 66, 73, 84, 77, 73, 77, 69];
    proof {
        assert(crlf_x@ =~= crlf());
        assert(lit_helo_x@ =~= lit_helo());
        assert(lit_ehlo_x@ =~= lit_ehlo());
        assert(lit_mail_x@ =~= lit_mail());
        assert(lit_rcpt_x@ =~= lit_rcpt());
        assert(lit_rset_x@ =~= lit_rset());
        assert(lit_quit_x@ =~= lit_quit());
        assert(lit_noop_x@ =~= lit_noop());
        assert(lit_from_x@ =~= lit_from());
        assert(lit_to_x@ =~= lit_to());
        assert(lit_body8_x@ =~= lit_body8());
    }
    let mut out: Vec<u8> = Vec::new();
    match c {
        Cmd::Helo { domain } => {
            push_all(&mut out, lit_helo_x.as_slice());
            out.push(32);
            push_all(&mut out, domain.as_slice());
            push_all(&mut out, crlf_x.as_slice());
            proof {
                assert(out@ =~= format_spec(c@).unwrap());
            }
            Some(out)
        },
        Cmd::Ehlo { domain } => {
            push_all(&mut out, lit_ehlo_x.as_slice());
            out.push(32);
            push_all(&mut out, domain.as_slice());
            push_all(&mut out, crlf_x.as_slice());
            proof {
                assert(out@ =~= format_spec(c@).unwrap());
            }
            Some(out)
        },
        Cmd::Mail { reverse_path, is8bit } => {
            push_all(&mut out, lit_mail_x.as_slice());
            out.push(32);
            push_all(&mut out, lit_from_x.as_slice());
            out.push(60);
            push_all(&mut out, reverse_path.as_slice());
            out.push(62);
            if *is8bit {
                out.push(32);
                push_all(&mut out, lit_body8_x.as_slice());
            }
            push_all(&mut out, crlf_x.as_slice());
            proof {
                assert(out@ =~= format_spec(c@).unwrap());
            }
            Some(out)
        },
        Cmd::Rcpt { forward_path } => {
            push_all(&mut out, lit_rcpt_x.as_slice());
            out.push(32);
            push_all(&mut out, lit_to_x.as_slice());
            out.push(60);
            push_all(&mut out, forward_path.as_slice());
            out.push(62);
            push_all(&mut out, crlf_x.as_slice());
            proof {
                assert(out@ =~= format_spec(c@).unwrap());
            }
            Some(out)
        },
        Cmd::Rset => {
            push_all(&mut out, lit_rset_x.as_slice());
            push_all(&mut out, crlf_x.as_slice());
            proof {
                assert(out@ =~= format_spec(c@).unwrap());
            }
            Some(out)
        },
        Cmd::Quit => {
            push_all(&mut out, lit_quit_x.as_slice());
            push_all(&mut out, crlf_x.as_slice());
            proof {
                assert(out@ =~= format_spec(c@).unwrap());
            }
            Some(out)
        },
        Cmd::Noop => {
            push_all(&mut out, lit_noop_x.as_slice());
            push_all(&mut out, crlf_x.as_slice());
            proof {
                assert(out@ =~= format_spec(c@).unwrap());
            }
            Some(out)
        },
        _ => None,
    }
}

/// Parses one line of a SASL exchange: the base64 payload it carries.
pub fn parse_auth_response(line: &[u8]) -> (r: Result<Vec<u8>, Response>)
    ensures
        match r {
            Ok(v) => auth_response_spec(line@) == Ok::<Seq<u8>, ResponseV>(v@),
            Err(e) => auth_response_spec(line@) == Err::<Seq<u8>, ResponseV>(e@),
        },
{
    let n = line.len();
    if n < 2 || line[n - 2] != 13 || line[n - 1] != 10 {
        return Err(bad_arguments());
    }
    let body = subvec(line, 0, n - 2);
    proof {
        assert(body@ =~= line@.take(line@.len() - 2));
    }
    match sasl::b64_decode(body.as_slice()) {
        Some(b) => Ok(b),
        None => Err(bad_arguments()),
    }
}

} // verus!
