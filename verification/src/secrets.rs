//! File secrets of an instance: which resolved secret each file mount receives,
//! and the base64 command that writes a secret file into a coast container.

use vstd::prelude::*;
use vstd::string::*;
use crate::text::{string_from_chars, string_views, str_eq, concat3};
use crate::lifecycle::{path_file_name, unix_path_file_name, path_parent, unix_path_parent};

verus! {

/// The standard base64 alphabet: `A-Z`, `a-z`, `0-9`, `+`, `/`.
pub open spec fn b64_char(v: nat) -> char {
    if v < 26 {
        (65 + v) as char
    } else if v < 52 {
        (97 + (v - 26)) as char
    } else if v < 62 {
        (48 + (v - 52)) as char
    } else if v == 62 {
        '+'
    } else {
        '/'
    }
}

/// Encoding of a final group of one to three bytes, padded with `=`.
pub open spec fn b64_group(b: Seq<u8>) -> Seq<char> {
    let b0 = b[0] as nat;
    let b1 = if b.len() > 1 { b[1] as nat } else { 0 };
    let b2 = if b.len() > 2 { b[2] as nat } else { 0 };
    seq![
        b64_char(b0 / 4),
        b64_char((b0 % 4) * 16 + b1 / 16),
        if b.len() > 1 { b64_char((b1 % 16) * 4 + b2 / 64) } else { '=' },
        if b.len() > 2 { b64_char(b2 % 64) } else { '=' },
    ]
}

/// Standard base64 (RFC 4648, with padding) of `b`, three bytes at a time.
pub open spec fn base64_spec(b: Seq<u8>) -> Seq<char>
    decreases b.len(),
{
    if b.len() == 0 {
        Seq::empty()
    } else if b.len() <= 3 {
        b64_group(b)
    } else {
        b64_group(b.take(3)) + base64_spec(b.skip(3))
    }
}

fn b64_digit(v: u8) -> (c: char)
    requires
        v < 64,
    ensures
        c == b64_char(v as nat),
{
    if v < 26 {
        (65u8 + v) as char
    } else if v < 52 {
        (97u8 + (v - 26)) as char
    } else if v < 62 {
        (48u8 + (v - 52)) as char
    } else if v == 62 {
        '+'
    } else {
        '/'
    }
}

proof fn lemma_base64_len(b: Seq<u8>)
    ensures
        base64_spec(b).len() == 4 * ((b.len() + 2) / 3),
    decreases b.len(),
{
    if b.len() > 3 {
        lemma_base64_len(b.skip(3));
    }
}

/// Base64-encode a byte slice using the standard alphabet.
pub fn base64_encode_bytes(input: &[u8]) -> (out: String)
    ensures
        out@ == base64_spec(input@),
        out@.len() == 4 * ((input@.len() + 2) / 3),
{
    let n = input.len();
    let mut out: Vec<char> = Vec::new();
    let mut i: usize = 0;
    assert(input@.skip(0) =~= input@);
    while i < n
        invariant
            i <= n,
            n == input@.len(),
            out@ + base64_spec(input@.skip(i as int)) == base64_spec(input@),
        decreases n - i,
    {
        let rem = n - i;
        let b0 = input[i];
        let b1: u8 = if rem > 1 { input[i + 1] } else { 0 };
        let b2: u8 = if rem > 2 { input[i + 2] } else { 0 };
        let ghost before = out@;
        let ghost rest = input@.skip(i as int);
        let ghost group = if rest.len() <= 3 { rest } else { rest.take(3) };
        out.push(b64_digit(b0 / 4));
        out.push(b64_digit((b0 % 4) * 16 + b1 / 16));
        if rem > 1 {
            out.push(b64_digit((b1 % 16) * 4 + b2 / 64));
        } else {
            out.push('=');
        }
        if rem > 2 {
            out.push(b64_digit(b2 % 64));
        } else {
            out.push('=');
        }
        proof {
            assert(group[0] == b0);
            if rem > 1 { assert(group[1] == b1); }
            if rem > 2 { assert(group[2] == b2); }
            assert(out@ =~= before + b64_group(group));
            if rest.len() > 3 {
                assert(rest.skip(3) =~= input@.skip(i + 3));
            }
        }
        if rem <= 3 {
            proof {
                assert(out@ =~= base64_spec(input@));
            }
            i = n;
            assert(input@.skip(n as int) =~= Seq::<u8>::empty());
        } else {
            i = i + 3;
        }
    }
    proof {
        assert(input@.skip(n as int) =~= Seq::<u8>::empty());
        assert(out@ =~= base64_spec(input@));
        lemma_base64_len(input@);
    }
    string_from_chars(out.as_slice())
}

/// Whether `c` is a character of the standard base64 alphabet.
pub open spec fn is_b64_char(c: char) -> bool {
    ('A' <= c && c <= 'Z') || ('a' <= c && c <= 'z') || ('0' <= c && c <= '9') || c == '+' || c == '/'
}

/// The 6-bit value of a base64 character.
pub open spec fn b64_val(c: char) -> int {
    let u = c as int;
    if 65 <= u && u < 91 {
        u - 65
    } else if 97 <= u && u < 123 {
        u - 71
    } else if 48 <= u && u < 58 {
        u + 4
    } else if c == '+' {
        62
    } else {
        63
    }
}

/// The bytes of one padded group of four base64 characters.
pub open spec fn b64_decode_group(g: Seq<char>) -> Seq<int> {
    let a = b64_val(g[0]);
    let b = b64_val(g[1]);
    let c = b64_val(g[2]);
    let d = b64_val(g[3]);
    let x0 = a * 4 + b / 16;
    let x1 = (b % 16) * 16 + c / 4;
    let x2 = (c % 4) * 64 + d;
    if g[2] == '=' {
        seq![x0]
    } else if g[3] == '=' {
        seq![x0, x1]
    } else {
        seq![x0, x1, x2]
    }
}

/// Standard (RFC 4648) decoding of padded base64 text, four characters at a time.
pub open spec fn base64_decode_spec(s: Seq<char>) -> Seq<int>
    decreases s.len(),
{
    if s.len() < 4 {
        Seq::empty()
    } else {
        b64_decode_group(s.take(4)) + base64_decode_spec(s.skip(4))
    }
}

proof fn lemma_b64_char(v: nat)
    requires
        v < 64,
    ensures
        is_b64_char(b64_char(v)),
        b64_val(b64_char(v)) == v,
        b64_char(v) != '=',
{
    if v < 26 {
        assert(((65 + v) as char) as int == 65 + v);
    } else if v < 52 {
        assert(((97 + (v - 26)) as char) as int == 97 + (v - 26));
    } else if v < 62 {
        assert(((48 + (v - 52)) as char) as int == 48 + (v - 52));
    }
}

proof fn lemma_group_bytes(b0: nat, b1: nat, b2: nat)
    requires
        b0 < 256,
        b1 < 256,
        b2 < 256,
    ensures
        (b0 / 4) * 4 + ((b0 % 4) * 16 + b1 / 16) / 16 == b0,
        (((b0 % 4) * 16 + b1 / 16) % 16) * 16 + ((b1 % 16) * 4 + b2 / 64) / 4 == b1,
        (((b1 % 16) * 4 + b2 / 64) % 4) * 64 + b2 % 64 == b2,
        b0 / 4 < 64,
        (b0 % 4) * 16 + b1 / 16 < 64,
        (b1 % 16) * 4 + b2 / 64 < 64,
{
    assert((b0 / 4) * 4 + b0 % 4 == b0) by (nonlinear_arith);
    assert(((b0 % 4) * 16 + b1 / 16) / 16 == b0 % 4) by (nonlinear_arith)
        requires b1 < 256;
    assert(((b0 % 4) * 16 + b1 / 16) % 16 == b1 / 16) by (nonlinear_arith)
        requires b1 < 256;
    assert(((b1 % 16) * 4 + b2 / 64) / 4 == b1 % 16) by (nonlinear_arith)
        requires b2 < 256;
    assert(((b1 % 16) * 4 + b2 / 64) % 4 == b2 / 64) by (nonlinear_arith)
        requires b2 < 256;
    assert((b1 / 16) * 16 + b1 % 16 == b1) by (nonlinear_arith);
    assert((b2 / 64) * 64 + b2 % 64 == b2) by (nonlinear_arith);
}

proof fn lemma_group_round_trip(g: Seq<u8>)
    requires
        1 <= g.len() <= 3,
    ensures
        b64_decode_group(b64_group(g)) == g.map_values(|x: u8| x as int),
        forall|i: int| 0 <= i < g.len() + 1 ==> is_b64_char(#[trigger] b64_group(g)[i]),
        forall|i: int| g.len() + 1 <= i < 4 ==> #[trigger] b64_group(g)[i] == '=',
{
    let b0 = g[0] as nat;
    let b1 = if g.len() > 1 { g[1] as nat } else { 0 };
    let b2 = if g.len() > 2 { g[2] as nat } else { 0 };
    lemma_group_bytes(b0, b1, b2);
    lemma_b64_char(b0 / 4);
    lemma_b64_char((b0 % 4) * 16 + b1 / 16);
    lemma_b64_char((b1 % 16) * 4 + b2 / 64);
    lemma_b64_char(b2 % 64);
    assert(b64_decode_group(b64_group(g)) =~= g.map_values(|x: u8| x as int));
}

/// What the encoding promises: the text decodes back (RFC 4648) to the input; it
/// ends with `(3 - n % 3) % 3` padding characters `=`, and every other character is
/// of the standard alphabet.
#[verifier::rlimit(40)]
#[verifier::spinoff_prover]
pub proof fn lemma_base64_round_trip(b: Seq<u8>)
    ensures
        base64_decode_spec(base64_spec(b)) == b.map_values(|x: u8| x as int),
        ({
            let e = base64_spec(b);
            let pad = (3 - b.len() % 3) % 3;
            &&& forall|i: int| 0 <= i < e.len() - pad ==> is_b64_char(#[trigger] e[i])
            &&& forall|i: int| e.len() - pad <= i < e.len() ==> #[trigger] e[i] == '='
        }),
    decreases b.len(),
{
    lemma_base64_len(b);
    if b.len() == 0 {
        assert(base64_decode_spec(base64_spec(b)) =~= b.map_values(|x: u8| x as int));
    } else if b.len() <= 3 {
        lemma_group_round_trip(b);
        let e = base64_spec(b);
        assert(e.take(4) =~= e);
        assert(e.skip(4) =~= Seq::<char>::empty());
        assert(base64_decode_spec(e.skip(4)) =~= Seq::<int>::empty());
        assert(base64_decode_spec(e) =~= b64_decode_group(e) + Seq::<int>::empty());
        assert(base64_decode_spec(e) =~= b.map_values(|x: u8| x as int));
    } else {
        let head = b.take(3);
        let tail = b.skip(3);
        lemma_group_round_trip(head);
        lemma_base64_round_trip(tail);
        lemma_base64_len(tail);
        let e = base64_spec(b);
        let g = b64_group(head);
        let r = base64_spec(tail);
        assert(e == g + r);
        assert(e.take(4) =~= g);
        assert(e.skip(4) =~= r);
        assert(base64_decode_spec(e) == b64_decode_group(g) + base64_decode_spec(r));
        assert(b.map_values(|x: u8| x as int) =~= head.map_values(|x: u8| x as int) + tail.map_values(|x: u8| x as int));
        assert(b.len() % 3 == tail.len() % 3);
        let pad = (3 - b.len() % 3) % 3;
        assert forall|i: int| 0 <= i < e.len() - pad implies is_b64_char(#[trigger] e[i]) by {
            if i < 4 {
                assert(e[i] == g[i]);
            } else {
                assert(e[i] == r[i - 4]);
            }
        }
        assert forall|i: int| e.len() - pad <= i < e.len() implies #[trigger] e[i] == '=' by {
            assert(e[i] == r[i - 4]);
        }
    }
}

/// A file mount of the secret injection plan: the host file and where it appears in
/// the container.
pub struct SecretFileMount {
    pub host_path: String,
    pub container_path: String,
}

/// The file name of a host path as the plan matches it against secret names (empty
/// when the path has none).
pub open spec fn file_name_text(path: Seq<char>) -> Seq<char> {
    match unix_path_file_name(path) {
        Some(n) => n,
        None => Seq::empty(),
    }
}

/// The index of the first name equal to `n`.
pub open spec fn first_named(names: Seq<Seq<char>>, n: Seq<char>) -> Option<int>
    decreases names.len(),
{
    if names.len() == 0 {
        None
    } else {
        match first_named(names.drop_last(), n) {
            Some(j) => Some(j),
            None => if names.last() == n { Some(names.len() - 1) } else { None },
        }
    }
}

/// For each file mount in order whose host file name is the name of a resolved
/// secret, the mount's index and the index of the first such secret.
pub open spec fn secret_writes_spec(mounts: Seq<SecretFileMount>, names: Seq<Seq<char>>) -> Seq<(int, int)>
    decreases mounts.len(),
{
    if mounts.len() == 0 {
        Seq::empty()
    } else {
        let rest = secret_writes_spec(mounts.drop_last(), names);
        match first_named(names, file_name_text(mounts.last().host_path@)) {
            Some(j) => rest.push((mounts.len() - 1, j)),
            None => rest,
        }
    }
}

proof fn lemma_first_named(names: Seq<Seq<char>>, n: Seq<char>, k: int)
    requires
        0 <= k <= names.len(),
        forall|j: int| 0 <= j < k ==> names[j] != n,
        k < names.len() ==> names[k] == n,
    ensures
        first_named(names, n) == (if k < names.len() { Some(k) } else { None::<int> }),
    decreases names.len(),
{
    if names.len() > 0 {
        let init = names.drop_last();
        if k < names.len() - 1 {
            assert(init[k] == names[k]);
            lemma_first_named(init, n, k);
        } else {
            assert forall|j: int| 0 <= j < init.len() implies init[j] != n by {
                assert(init[j] == names[j]);
            }
            lemma_first_named(init, n, init.len() as int);
        }
    }
}

fn find_secret(names: &[String], n: &str) -> (r: Option<usize>)
    ensures
        match r {
            Some(j) => first_named(string_views(names@), n@) == Some(j as int),
            None => first_named(string_views(names@), n@) is None,
        },
{
    let ghost sv = string_views(names@);
    let mut i: usize = 0;
    while i < names.len()
        invariant
            i <= names@.len(),
            sv == string_views(names@),
            forall|j: int| 0 <= j < i ==> sv[j] != n@,
        decreases names@.len() - i,
    {
        if str_eq(names[i].as_str(), n) {
            proof { lemma_first_named(sv, n@, i as int); }
            return Some(i);
        }
        i = i + 1;
    }
    proof { lemma_first_named(sv, n@, sv.len() as int); }
    None
}

/// Which resolved secret each file mount of the plan receives: for each mount whose
/// host file name names a resolved secret, `(mount index, secret index)`, in mount
/// order; the first secret of that name is taken.
pub fn secret_file_writes(mounts: &[SecretFileMount], secret_names: &[String]) -> (w: Vec<(usize, usize)>)
    ensures
        w@.map_values(|p: (usize, usize)| (p.0 as int, p.1 as int))
            == secret_writes_spec(mounts@, string_views(secret_names@)),
{
    let ghost sv = string_views(secret_names@);
    let mut w: Vec<(usize, usize)> = Vec::new();
    let mut i: usize = 0;
    while i < mounts.len()
        invariant
            i <= mounts@.len(),
            sv == string_views(secret_names@),
            w@.map_values(|p: (usize, usize)| (p.0 as int, p.1 as int)) == secret_writes_spec(mounts@.take(i as int), sv),
        decreases mounts@.len() - i,
    {
        proof {
            assert(mounts@.take(i + 1).drop_last() =~= mounts@.take(i as int));
            assert(mounts@.take(i + 1).last() == mounts@[i as int]);
        }
        let name: String = match path_file_name(mounts[i].host_path.as_str()) {
            Some(n) => n,
            None => String::new(),
        };
        let ghost before = w@.map_values(|p: (usize, usize)| (p.0 as int, p.1 as int));
        match find_secret(secret_names, name.as_str()) {
            Some(j) => {
                w.push((i, j));
                assert(w@.map_values(|p: (usize, usize)| (p.0 as int, p.1 as int)) =~= before.push((i as int, j as int)));
            },
            None => {},
        }
        i = i + 1;
    }
    assert(mounts@.take(mounts@.len() as int) =~= mounts@);
    w
}

/// The command that writes a secret file into the coast container, given the
/// directory it goes in and the file's base64 text.
pub open spec fn secret_write_spec(dir: Seq<char>, b64: Seq<char>, path: Seq<char>) -> Seq<char> {
    "mkdir -p '"@ + dir + "' && echo '"@ + b64 + "' | base64 -d > '"@ + path + "'"@
}

/// The `sh -c` command writing `data` to `container_path` inside the coast
/// container, given the directory it goes in.
pub fn secret_write_command_in(container_path: &str, data: &[u8], dir: &str) -> (cmd: String)
    ensures
        cmd@ == secret_write_spec(dir@, base64_spec(data@), container_path@),
{
    let b64 = base64_encode_bytes(data);
    let mut cmd = concat3("mkdir -p '", dir, "' && echo '");
    cmd.append(b64.as_str());
    cmd.append("' | base64 -d > '");
    cmd.append(container_path);
    cmd.append("'");
    cmd
}

/// The `sh -c` command writing `data` to `container_path` inside the coast container
/// (the directory is the path's parent, `/` when it has none).
pub fn secret_write_command(container_path: &str, data: &[u8]) -> (cmd: String)
    ensures
        cmd@ == secret_write_spec(
            match unix_path_parent(container_path@) { Some(p) => p, None => "/"@ },
            base64_spec(data@),
            container_path@,
        ),
{
    let dir: String = match path_parent(container_path) {
        Some(p) => p,
        None => "/".to_owned(),
    };
    secret_write_command_in(container_path, data, dir.as_str())
}

} // verus!
