//! SQLite catalog introspection: quoting identifiers into catalog pragmas,
//! and how a declared column type maps to the domain and storage
//! representation a relation column is introspected as.
use vstd::prelude::*;
use vstd::utf8::encode_utf8;
use crate::text_edit::chars_of;

verus! {

/// The domain and storage representation of an introspected column.
#[derive(Clone, Copy, Debug, PartialEq, Eq, Structural)]
pub enum ColumnAffinity {
    I64,
    Text,
    F64,
    Bytes,
}

/// ASCII upper case of a byte.
pub open spec fn ascii_upper(b: u8) -> u8 {
    if 97 <= b <= 122 {
        (b - 32) as u8
    } else {
        b
    }
}

/// `s` contains `pattern` at some position.
pub open spec fn contains_bytes(s: Seq<u8>, pattern: Seq<u8>) -> bool {
    exists|i: int| 0 <= i && i + pattern.len() <= s.len() && #[trigger] s.subrange(i, i + pattern.len()) == pattern
}

/// The ASCII upper-case bytes of a declared type.
pub open spec fn upper_bytes(declared: Seq<char>) -> Seq<u8> {
    encode_utf8(declared).map_values(|b: u8| ascii_upper(b))
}

/// SQLite's affinity rules on a declared type, compared case-insensitively:
/// `INT` gives integers; else `CHAR`, `CLOB` or `TEXT` text; else `REAL`,
/// `FLOA` or `DOUB` floating point; anything else bytes.
pub open spec fn spec_affinity(declared: Seq<char>) -> ColumnAffinity {
    let u = upper_bytes(declared);
    if contains_bytes(u, encode_utf8("INT"@)) {
        ColumnAffinity::I64
    } else if contains_bytes(u, encode_utf8("CHAR"@)) || contains_bytes(u, encode_utf8("CLOB"@))
        || contains_bytes(u, encode_utf8("TEXT"@)) {
        ColumnAffinity::Text
    } else if contains_bytes(u, encode_utf8("REAL"@)) || contains_bytes(u, encode_utf8("FLOA"@))
        || contains_bytes(u, encode_utf8("DOUB"@)) {
        ColumnAffinity::F64
    } else {
        ColumnAffinity::Bytes
    }
}

#[verifier::loop_isolation(false)]
fn find_bytes(s: &Vec<u8>, pattern: &[u8]) -> (r: bool)
    ensures
        r == contains_bytes(s@, pattern@),
{
    if pattern.len() > s.len() {
        return false;
    }
    let last = s.len() - pattern.len();
    let mut i: usize = 0;
    while i <= last
        invariant
            last == s@.len() - pattern@.len(),
            pattern@.len() <= s@.len(),
            forall|k: int| 0 <= k < i ==> #[trigger] s@.subrange(k, k + pattern@.len()) != pattern@,
        decreases last + 1 - i,
    {
        let mut j: usize = 0;
        while j < pattern.len() && s[i + j] == pattern[j]
            invariant
                i <= last,
                last == s@.len() - pattern@.len(),
                pattern@.len() <= s@.len(),
                j <= pattern@.len(),
                forall|m: int| 0 <= m < j ==> s@[i + m] == pattern@[m],
            decreases pattern@.len() - j,
        {
            j = j + 1;
        }
        if j == pattern.len() {
            assert(s@.subrange(i as int, i + pattern@.len()) =~= pattern@);
            return true;
        }
        assert(s@.subrange(i as int, i + pattern@.len())[j as int] != pattern@[j as int]);
        if i == last {
            break;
        }
        i = i + 1;
    }
    assert forall|k: int| 0 <= k && k + pattern@.len() <= s@.len() implies #[trigger] s@.subrange(
        k,
        k + pattern@.len(),
    ) != pattern@ by {
        assert(k <= last);
    }
    false
}

/// The affinity of a declared column type, as [`spec_affinity`] states.
pub fn affinity(declared: &str) -> (r: ColumnAffinity)
    ensures
        r == spec_affinity(declared@),
{
    let bytes = declared.as_bytes();
    let mut upper: Vec<u8> = Vec::new();
    for i in 0..bytes.len()
        invariant
            upper@ == bytes@.take(i as int).map_values(|b: u8| ascii_upper(b)),
    {
        let b = bytes[i];
        upper.push(if 97 <= b && b <= 122 { b - 32 } else { b });
        assert(upper@ =~= bytes@.take(i + 1).map_values(|b: u8| ascii_upper(b)));
    }
    assert(bytes@.take(bytes@.len() as int) =~= bytes@);
    assert(upper@ == upper_bytes(declared@));
    if find_bytes(&upper, "INT".as_bytes()) {
        ColumnAffinity::I64
    } else if find_bytes(&upper, "CHAR".as_bytes()) || find_bytes(&upper, "CLOB".as_bytes())
        || find_bytes(&upper, "TEXT".as_bytes()) {
        ColumnAffinity::Text
    } else if find_bytes(&upper, "REAL".as_bytes()) || find_bytes(&upper, "FLOA".as_bytes())
        || find_bytes(&upper, "DOUB".as_bytes()) {
        ColumnAffinity::F64
    } else {
        ColumnAffinity::Bytes
    }
}

/// What one character of an identifier becomes between double quotes.
pub open spec fn quote_step(c: char) -> Seq<char> {
    if c == '"' {
        seq!['"', '"']
    } else {
        seq![c]
    }
}

/// `name` with every `"` doubled.
pub open spec fn doubled_quotes(name: Seq<char>) -> Seq<char>
    decreases name.len(),
{
    if name.len() == 0 {
        Seq::empty()
    } else {
        doubled_quotes(name.drop_last()) + quote_step(name.last())
    }
}

/// `name` as an SQL identifier: between double quotes, each inner `"` doubled.
pub open spec fn quoted(name: Seq<char>) -> Seq<char> {
    seq!['"'] + doubled_quotes(name) + seq!['"']
}

proof fn lemma_doubled_len(name: Seq<char>)
    ensures
        doubled_quotes(name).len() >= name.len(),
    decreases name.len(),
{
    if name.len() > 0 {
        lemma_doubled_len(name.drop_last());
    }
}

proof fn lemma_doubled_injective(a: Seq<char>, b: Seq<char>)
    requires
        doubled_quotes(a) == doubled_quotes(b),
    ensures
        a == b,
    decreases a.len() + b.len(),
{
    lemma_doubled_len(a);
    lemma_doubled_len(b);
    if a.len() == 0 || b.len() == 0 {
        assert(a =~= b);
    } else {
        let (a1, b1) = (a.drop_last(), b.drop_last());
        let (da, db) = (doubled_quotes(a1), doubled_quotes(b1));
        let (x, y) = (a.last(), b.last());
        let d = doubled_quotes(a);
        assert(d == da + quote_step(x));
        assert(d == db + quote_step(y));
        assert(d.last() == x);
        assert(d.last() == y);
        if x == '"' {
            assert(da =~= d.subrange(0, d.len() - 2));
            assert(db =~= d.subrange(0, d.len() - 2));
        } else {
            assert(da =~= d.drop_last());
            assert(db =~= d.drop_last());
        }
        lemma_doubled_injective(a1, b1);
        assert(a =~= a1.push(x));
        assert(b =~= b1.push(y));
    }
}

/// The UTF-8 bytes of an ASCII keyword are its character codes.
proof fn lemma_keyword_bytes(word: Seq<char>, codes: Seq<u8>)
    requires
        word.len() == codes.len(),
        forall|i: int| 0 <= i < word.len() ==> #[trigger] word[i] as int == codes[i] as int && codes[i] < 128,
    ensures
        encode_utf8(word) == codes,
{
    assert(vstd::utf8::is_ascii_chars(word)) by {
        assert forall|i: int| 0 <= i < word.len() implies '\0' <= #[trigger] word[i] <= '\u{7f}' by {
            assert(word[i] as int == codes[i] as int);
        }
    }
    vstd::utf8::is_ascii_chars_encode_utf8(word);
    assert forall|i: int| 0 <= i < word.len() implies encode_utf8(word)[i] == codes[i] by {
        assert(word[i] as int == codes[i] as int);
        assert(word[i] as u8 == codes[i]);
    }
    assert(encode_utf8(word) =~= codes);
}

/// How a declared type's affinity follows from the keywords its upper-case
/// bytes contain: `INT` (73 78 84) gives integers; otherwise `CHAR`
/// (67 72 65 82), `CLOB` (67 76 79 66) or `TEXT` (84 69 88 84) gives text;
/// otherwise `REAL` (82 69 65 76), `FLOA` (70 76 79 65) or `DOUB`
/// (68 79 85 66) gives floating point; a type with none of them holds bytes.
pub proof fn law_affinity_follows_keywords(declared: Seq<char>)
    ensures
        ({
            let u = upper_bytes(declared);
            let int_kw = contains_bytes(u, seq![73u8, 78u8, 84u8]);
            let text_kw = contains_bytes(u, seq![67u8, 72u8, 65u8, 82u8]) || contains_bytes(
                u,
                seq![67u8, 76u8, 79u8, 66u8],
            ) || contains_bytes(u, seq![84u8, 69u8, 88u8, 84u8]);
            let real_kw = contains_bytes(u, seq![82u8, 69u8, 65u8, 76u8]) || contains_bytes(
                u,
                seq![70u8, 76u8, 79u8, 65u8],
            ) || contains_bytes(u, seq![68u8, 79u8, 85u8, 66u8]);
            &&& int_kw ==> spec_affinity(declared) == ColumnAffinity::I64
            &&& !int_kw && text_kw ==> spec_affinity(declared) == ColumnAffinity::Text
            &&& !int_kw && !text_kw && real_kw ==> spec_affinity(declared) == ColumnAffinity::F64
            &&& !int_kw && !text_kw && !real_kw ==> spec_affinity(declared)
                == ColumnAffinity::Bytes
        }),
{
    reveal_strlit("INT");
    reveal_strlit("CHAR");
    reveal_strlit("CLOB");
    reveal_strlit("TEXT");
    reveal_strlit("REAL");
    reveal_strlit("FLOA");
    reveal_strlit("DOUB");
    lemma_keyword_bytes("INT"@, seq![73u8, 78u8, 84u8]);
    lemma_keyword_bytes("CHAR"@, seq![67u8, 72u8, 65u8, 82u8]);
    lemma_keyword_bytes("CLOB"@, seq![67u8, 76u8, 79u8, 66u8]);
    lemma_keyword_bytes("TEXT"@, seq![84u8, 69u8, 88u8, 84u8]);
    lemma_keyword_bytes("REAL"@, seq![82u8, 69u8, 65u8, 76u8]);
    lemma_keyword_bytes("FLOA"@, seq![70u8, 76u8, 79u8, 65u8]);
    lemma_keyword_bytes("DOUB"@, seq![68u8, 79u8, 85u8, 66u8]);
}

/// Quoting keeps identifiers apart: two names quote to the same text only
/// if they are the same name, so a quoted name always reads back as itself.
pub proof fn law_quoting_is_injective(a: Seq<char>, b: Seq<char>)
    ensures
        quoted(a) == quoted(b) ==> a == b,
{
    if quoted(a) == quoted(b) {
        let q = quoted(a);
        assert(doubled_quotes(a) =~= q.subrange(1, q.len() - 1));
        assert(doubled_quotes(b) =~= q.subrange(1, q.len() - 1));
        lemma_doubled_injective(a, b);
    }
}

/// Quotes `name` as an SQL identifier.
pub fn quote_identifier(name: &str) -> (r: String)
    ensures
        r@ == quoted(name@),
{
    proof {
        reveal_strlit("\"");
    }
    let t = chars_of(name);
    let mut out = String::from_str("\"");
    let mut seg: usize = 0;
    for i in 0..t.len()
        invariant
            t@ == name@,
            seg <= i,
            out@ + name@.subrange(seg as int, i as int) == seq!['"'] + doubled_quotes(
                name@.take(i as int),
            ),
    {
        proof {
            reveal_strlit("\"");
        }
        assert(name@.take(i + 1).drop_last() =~= name@.take(i as int));
        assert(name@.take(i + 1).last() == t@[i as int]);
        let ghost d = doubled_quotes(name@.take(i as int));
        assert(doubled_quotes(name@.take(i + 1)) == d + quote_step(t@[i as int]));
        if t[i] == '"' {
            let ghost before = out@;
            out.append(name.substring_char(seg, i + 1));
            out.append("\"");
            assert(name@.subrange(seg as int, i + 1) =~= name@.subrange(seg as int, i as int).push(
                '"',
            ));
            assert(out@ =~= (before + name@.subrange(seg as int, i as int)) + seq!['"', '"']);
            assert(out@ + name@.subrange(i + 1, i + 1) =~= seq!['"'] + doubled_quotes(
                name@.take(i + 1),
            ));
            seg = i + 1;
        } else {
            assert(out@ + name@.subrange(seg as int, i + 1) =~= (out@ + name@.subrange(
                seg as int,
                i as int,
            )).push(t@[i as int]));
            assert(out@ + name@.subrange(seg as int, i + 1) =~= seq!['"'] + doubled_quotes(
                name@.take(i + 1),
            ));
        }
    }
    out.append(name.substring_char(seg, t.len()));
    out.append("\"");
    assert(name@.take(t@.len() as int) =~= name@);
    assert(out@ =~= quoted(name@));
    out
}

/// `PRAGMA table_info` over the table `name`.
pub fn table_info_pragma(name: &str) -> (r: String)
    ensures
        r@ == "PRAGMA table_info("@ + quoted(name@) + ")"@,
{
    let mut out = String::from_str("PRAGMA table_info(");
    out.append(quote_identifier(name).as_str());
    out.append(")");
    out
}

/// `PRAGMA index_list` over the table `name`.
pub fn index_list_pragma(name: &str) -> (r: String)
    ensures
        r@ == "PRAGMA index_list("@ + quoted(name@) + ")"@,
{
    let mut out = String::from_str("PRAGMA index_list(");
    out.append(quote_identifier(name).as_str());
    out.append(")");
    out
}

/// `PRAGMA index_info` over the index `name`.
pub fn index_info_pragma(name: &str) -> (r: String)
    ensures
        r@ == "PRAGMA index_info("@ + quoted(name@) + ")"@,
{
    let mut out = String::from_str("PRAGMA index_info(");
    out.append(quote_identifier(name).as_str());
    out.append(")");
    out
}

/// Whether an index is one of the schema's own (its name does not start
/// with `sqlite_`, the prefix SQLite keeps for its internal indexes).
pub fn is_schema_index(name: &str) -> (r: bool)
    ensures
        r == !(name@.len() >= 7 && name@.take(7) == "sqlite_"@),
{
    proof {
        reveal_strlit("sqlite_");
    }
    let t = chars_of(name);
    if t.len() < 7 {
        return true;
    }
    let prefix = chars_of("sqlite_");
    for i in 0..7
        invariant
            t@ == name@,
            t@.len() >= 7,
            prefix@ == "sqlite_"@,
            prefix@.len() == 7,
            forall|j: int| 0 <= j < i ==> t@[j] == prefix@[j],
    {
        if t[i] != prefix[i] {
            assert(name@.take(7)[i as int] != "sqlite_"@[i as int]);
            return true;
        }
    }
    assert(name@.take(7) =~= "sqlite_"@);
    false
}

/// One column of `PRAGMA table_info`, introspected.
#[derive(Clone, Debug, PartialEq, Eq)]
pub struct SqliteColumn {
    pub name: String,
    pub affinity: ColumnAffinity,
    pub nullable: bool,
    pub ordinal: u32,
}

/// The column a `table_info` row describes: its declared type's affinity,
/// nullable unless declared `NOT NULL`, and its ordinal, which must fit in a
/// `u32` (else the row does not convert).
pub fn sqlite_column(ordinal: i64, name: String, declared: &str, notnull: i64) -> (r: Option<SqliteColumn>)
    ensures
        0 <= ordinal <= u32::MAX <==> r is Some,
        r matches Some(c) ==> c.name == name && c.affinity == spec_affinity(declared@) && c.nullable
            == (notnull == 0) && c.ordinal == ordinal,
{
    if ordinal < 0 || ordinal > u32::MAX as i64 {
        return None;
    }
    Some(SqliteColumn { name, affinity: affinity(declared), nullable: notnull == 0, ordinal: ordinal as u32 })
}

} // verus!
