//! The flat names that the rewrite gives to imports, exports and top-level
//! variables, all derived from the module's id.

use std::collections::hash_map::DefaultHasher;
use std::hash::{BuildHasher, BuildHasherDefault};
use swc_atoms::JsWord;
use vstd::prelude::*;

verus! {

/// The 64-bit digest of a word, as the interned-word type of the syntax tree's
/// producer hashes it.
pub uninterp spec fn word_hash(word: Seq<char>) -> u64;

/// Interns the word with `JsWord::from` and hashes the atom with std's
/// `BuildHasher::hash_one` on a `DefaultHasher` in its initial state. An atom
/// hashes as one 32-bit value: that of its entry in the crate's fixed set of
/// words, or a value made of its bytes where it is short, or else the digest of
/// its text under the key of that set. The hasher starts from fixed keys. So
/// the digest depends on the word's text alone.
#[verifier::external_body]
fn atom_hash(word: &str) -> (h: u64)
    ensures
        h == word_hash(word@),
{
    BuildHasherDefault::<DefaultHasher>::default().hash_one(JsWord::from(word))
}

/// The digest of a word.
pub fn hash_word(word: &str) -> (h: u64)
    ensures
        h == word_hash(word@),
{
    atom_hash(word)
}

/// The lowercase hexadecimal digit of a number below 16.
pub open spec fn hex_digit(d: nat) -> char {
    if d == 0 {
        '0'
    } else if d == 1 {
        '1'
    } else if d == 2 {
        '2'
    } else if d == 3 {
        '3'
    } else if d == 4 {
        '4'
    } else if d == 5 {
        '5'
    } else if d == 6 {
        '6'
    } else if d == 7 {
        '7'
    } else if d == 8 {
        '8'
    } else if d == 9 {
        '9'
    } else if d == 10 {
        'a'
    } else if d == 11 {
        'b'
    } else if d == 12 {
        'c'
    } else if d == 13 {
        'd'
    } else if d == 14 {
        'e'
    } else {
        'f'
    }
}

/// A number in lowercase hexadecimal, without leading zeros.
pub open spec fn hex(n: nat) -> Seq<char>
    decreases n,
{
    if n < 16 {
        seq![hex_digit(n)]
    } else {
        hex(n / 16).push(hex_digit(n % 16))
    }
}

/// The one-character string of a hexadecimal digit.
fn digit_str(d: u64) -> (s: &'static str)
    requires
        d < 16,
    ensures
        s@ == seq![hex_digit(d as nat)],
{
    proof {
        reveal_strlit("0");
        reveal_strlit("1");
        reveal_strlit("2");
        reveal_strlit("3");
        reveal_strlit("4");
        reveal_strlit("5");
        reveal_strlit("6");
        reveal_strlit("7");
        reveal_strlit("8");
        reveal_strlit("9");
        reveal_strlit("a");
        reveal_strlit("b");
        reveal_strlit("c");
        reveal_strlit("d");
        reveal_strlit("e");
        reveal_strlit("f");
    }
    let s = if d == 0 {
        "0"
    } else if d == 1 {
        "1"
    } else if d == 2 {
        "2"
    } else if d == 3 {
        "3"
    } else if d == 4 {
        "4"
    } else if d == 5 {
        "5"
    } else if d == 6 {
        "6"
    } else if d == 7 {
        "7"
    } else if d == 8 {
        "8"
    } else if d == 9 {
        "9"
    } else if d == 10 {
        "a"
    } else if d == 11 {
        "b"
    } else if d == 12 {
        "c"
    } else if d == 13 {
        "d"
    } else if d == 14 {
        "e"
    } else {
        "f"
    };
    assert(s@ =~= seq![hex_digit(d as nat)]);
    s
}

/// Appends a number in lowercase hexadecimal, without leading zeros.
pub fn push_hex(out: &mut String, n: u64)
    ensures
        final(out)@ == old(out)@ + hex(n as nat),
    decreases n,
{
    if n >= 16 {
        push_hex(out, n / 16);
    }
    out.append(digit_str(n % 16));
    assert(final(out)@ =~= old(out)@ + hex(n as nat));
}

/// The name that stands for every export at once, and for a whole namespace.
pub open spec fn star() -> Seq<char> {
    "*"@
}

/// `$M$import$H(source)`, and `$H(local)` after it unless `local` is `*`.
pub open spec fn import_name(m: Seq<char>, source: Seq<char>, local: Seq<char>) -> Seq<char> {
    let whole = "$"@ + m + "$import$"@ + hex(word_hash(source) as nat);
    if local == star() {
        whole
    } else {
        whole + "$"@ + hex(word_hash(local) as nat)
    }
}

/// `$M$importAsync$H(source)`.
pub open spec fn async_name(m: Seq<char>, source: Seq<char>) -> Seq<char> {
    "$"@ + m + "$importAsync$"@ + hex(word_hash(source) as nat)
}

/// `$M$importAsync$H(source)$H(local)`.
pub open spec fn async_symbol_name(m: Seq<char>, source: Seq<char>, local: Seq<char>) -> Seq<
    char,
> {
    async_name(m, source) + "$"@ + hex(word_hash(local) as nat)
}

/// `$M$exports` for `*`, `$M$export$e` for any other exported name `e`.
pub open spec fn export_name(m: Seq<char>, exported: Seq<char>) -> Seq<char> {
    if exported == star() {
        "$"@ + m + "$exports"@
    } else {
        "$"@ + m + "$export$"@ + exported
    }
}

/// `$M$var$v`.
pub open spec fn var_name(m: Seq<char>, v: Seq<char>) -> Seq<char> {
    "$"@ + m + "$var$"@ + v
}

/// The name that replaces the free name `global`.
pub open spec fn global_name() -> Seq<char> {
    "$parcel$global"@
}

/// `M:source`, the text of a bare import.
pub open spec fn import_source(m: Seq<char>, source: Seq<char>) -> Seq<char> {
    m + ":"@ + source
}

/// Whether a name is one that the rewrite generates for the module `m`.
pub open spec fn is_generated(m: Seq<char>, name: Seq<char>) -> bool {
    ||| exists|s: Seq<char>, k: Seq<char>| name == #[trigger] import_name(m, s, k)
    ||| exists|s: Seq<char>| name == #[trigger] async_name(m, s)
    ||| exists|e: Seq<char>| name == #[trigger] export_name(m, e)
    ||| exists|v: Seq<char>| name == #[trigger] var_name(m, v)
}

/// Whether a name begins with `$`.
pub open spec fn begins_with_dollar(name: Seq<char>) -> bool {
    name.len() > 0 && name[0] == '$'
}

/// Whether a name is free of clashes: it does not begin with `$`, or the
/// rewrite generated it for the module `m`, or it is the replacement of `global`.
pub open spec fn is_fresh(m: Seq<char>, name: Seq<char>) -> bool {
    !begins_with_dollar(name) || is_generated(m, name) || name == global_name()
}

/// A generated name is `$`, then the module's id, then `$` and the rest.
pub proof fn lemma_generated_holds_id(m: Seq<char>, name: Seq<char>)
    requires
        is_generated(m, name),
    ensures
        name.len() >= m.len() + 2,
        name[0] == '$',
        name.subrange(1, m.len() as int + 1) == m,
        name[m.len() as int + 1] == '$',
{
    reveal_strlit("$");
    reveal_strlit("$import$");
    reveal_strlit("$importAsync$");
    reveal_strlit("$export$");
    reveal_strlit("$exports");
    reveal_strlit("$var$");
    let head = "$"@ + m;
    assert(head.subrange(1, m.len() as int + 1) =~= m);
    assert(name.subrange(1, m.len() as int + 1) =~= m);
}

/// `$M` followed by a fixed middle part.
fn prefixed(module_id: &str, middle: &str) -> (name: String)
    ensures
        name@ == "$"@ + module_id@ + middle@,
{
    let mut name = String::from_str("$");
    name.append(module_id);
    name.append(middle);
    name
}

/// The name of an import of `local` from `source`.
pub fn make_import_name(module_id: &str, source: &str, local: &str) -> (name: String)
    ensures
        name@ == import_name(module_id@, source@, local@),
{
    let mut name = prefixed(module_id, "$import$");
    push_hex(&mut name, atom_hash(source));
    let l = String::from_str(local);
    if !crate::tables::is_word(&l, "*") {
        name.append("$");
        push_hex(&mut name, atom_hash(local));
    }
    name
}

/// The name of a dynamic import of the whole of `source`.
pub fn make_async_name(module_id: &str, source: &str) -> (name: String)
    ensures
        name@ == async_name(module_id@, source@),
{
    let mut name = prefixed(module_id, "$importAsync$");
    push_hex(&mut name, atom_hash(source));
    name
}

/// The name of a dynamic import of `local` from `source`.
pub fn make_async_symbol_name(module_id: &str, source: &str, local: &str) -> (name: String)
    ensures
        name@ == async_symbol_name(module_id@, source@, local@),
{
    let mut name = make_async_name(module_id, source);
    name.append("$");
    push_hex(&mut name, atom_hash(local));
    name
}

/// The name of the export `exported`.
pub fn make_export_name(module_id: &str, exported: &str) -> (name: String)
    ensures
        name@ == export_name(module_id@, exported@),
{
    let e = String::from_str(exported);
    if crate::tables::is_word(&e, "*") {
        prefixed(module_id, "$exports")
    } else {
        let mut name = prefixed(module_id, "$export$");
        name.append(exported);
        name
    }
}

/// The name of the top-level variable `v`.
pub fn make_var_name(module_id: &str, v: &str) -> (name: String)
    ensures
        name@ == var_name(module_id@, v@),
{
    let mut name = prefixed(module_id, "$var$");
    name.append(v);
    name
}

/// The text of the bare import of `source`.
pub fn make_import_source(module_id: &str, source: &str) -> (text: String)
    ensures
        text@ == import_source(module_id@, source@),
{
    let mut text = String::from_str(module_id);
    text.append(":");
    text.append(source);
    text
}

} // verus!
