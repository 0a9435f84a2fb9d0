//! The persisted text format of the cache: metadata records and tree
//! snapshots, as canonical JSON.
//!
//! Every emitter carries an exact contract describing the produced text,
//! and every decoder is proved sound and complete against the same
//! encoding: a decoder returns a value exactly when the text is the
//! canonical encoding of that value. Corrupted or foreign text is
//! rejected, and whatever an emitter wrote decodes back to the same
//! value.

use vstd::prelude::*;
use crate::cache::{hex_digit, CacheMetadata, MetaView};
use crate::strutil::{chars_to_string, dec_digits, digit_char, str_to_chars, u64_to_dec_chars};
use crate::tree::{views_of, NodeKind, NodeView, RepoNode};

verus! {

/// Characters that are escaped: the quote, the backslash and controls.
pub open spec fn needs_escape(c: char) -> bool {
    c == '"' || c == '\\' || (c as u32) < 32
}

/// The encoding of one character inside a quoted string: itself, or a
/// `\u00XX` escape.
pub open spec fn esc_char(c: char) -> Seq<char> {
    if needs_escape(c) {
        seq![
            '\\',
            'u',
            '0',
            '0',
            hex_digit((((c as u32) / 16) % 16) as nat),
            hex_digit(((c as u32) % 16) as nat),
        ]
    } else {
        seq![c]
    }
}

/// The body of a quoted string.
pub open spec fn esc_seq(s: Seq<char>) -> Seq<char>
    decreases s.len(),
{
    if s.len() == 0 {
        Seq::<char>::empty()
    } else {
        esc_seq(s.drop_last()) + esc_char(s.last())
    }
}

/// A quoted, escaped string.
pub open spec fn quoted(s: Seq<char>) -> Seq<char> {
    seq!['"'] + esc_seq(s) + seq!['"']
}

/// `null` or a quoted string.
pub open spec fn opt_str_json(o: Option<Seq<char>>) -> Seq<char> {
    match o {
        Some(s) => quoted(s),
        None => "null"@,
    }
}

/// `null` or a decimal number.
pub open spec fn opt_count_json(o: Option<usize>) -> Seq<char> {
    match o {
        Some(n) => dec_digits(n as nat),
        None => "null"@,
    }
}

/// The encoding of a node kind.
pub open spec fn kind_json(k: NodeKind) -> Seq<char> {
    match k {
        NodeKind::Dir => "\"Dir\""@,
        NodeKind::RuleFile => "\"RuleFile\""@,
        NodeKind::Manifest => "\"Manifest\""@,
    }
}

/// The encoding of one tree node.
pub open spec fn node_json(n: NodeView) -> Seq<char> {
    "{\"name\":"@ + quoted(n.name) + ",\"path\":"@ + quoted(n.path) + ",\"kind\":"@ + kind_json(
        n.kind,
    ) + ",\"manifest_count\":"@ + opt_count_json(n.manifest_count) + "}"@
}

/// The first `i` node encodings, comma-separated.
pub open spec fn items_upto(s: Seq<NodeView>, i: int) -> Seq<char>
    decreases i,
{
    if i <= 0 {
        Seq::<char>::empty()
    } else if i == 1 {
        node_json(s[0])
    } else {
        items_upto(s, i - 1) + seq![','] + node_json(s[i - 1])
    }
}

/// The encoding of a node list.
pub open spec fn nodes_json(s: Seq<NodeView>) -> Seq<char> {
    "["@ + items_upto(s, s.len() as int) + "]"@
}

/// The encoding of a metadata record.
pub open spec fn meta_json(m: MetaView) -> Seq<char> {
    "{\"fetched_at\":"@ + dec_digits(m.fetched_at as nat) + ",\"etag\":"@ + opt_str_json(m.etag)
        + ",\"last_modified\":"@ + opt_str_json(m.last_modified) + ",\"owner\":"@ + quoted(
        m.owner,
    ) + ",\"repo\":"@ + quoted(m.repo) + ",\"branch\":"@ + quoted(m.branch) + "}"@
}

fn hex_digit_of_u32(d: u32) -> (r: char)
    requires
        d < 16,
    ensures
        r == hex_digit(d as nat),
{
    if d == 0 { '0' }
    else if d == 1 { '1' }
    else if d == 2 { '2' }
    else if d == 3 { '3' }
    else if d == 4 { '4' }
    else if d == 5 { '5' }
    else if d == 6 { '6' }
    else if d == 7 { '7' }
    else if d == 8 { '8' }
    else if d == 9 { '9' }
    else if d == 10 { 'a' }
    else if d == 11 { 'b' }
    else if d == 12 { 'c' }
    else if d == 13 { 'd' }
    else if d == 14 { 'e' }
    else { 'f' }
}

fn push_escaped(out: &mut Vec<char>, s: &Vec<char>)
    ensures
        final(out)@ == old(out)@ + esc_seq(s@),
{
    let mut i: usize = 0;
    while i < s.len()
        invariant
            i <= s@.len(),
            out@ == old(out)@ + esc_seq(s@.subrange(0, i as int)),
        decreases s@.len() - i,
    {
        let c: char = s[i];
        if c == '"' || c == '\\' || (c as u32) < 32 {
            out.push('\\');
            out.push('u');
            out.push('0');
            out.push('0');
            out.push(hex_digit_of_u32(((c as u32) / 16) % 16));
            out.push(hex_digit_of_u32((c as u32) % 16));
        } else {
            out.push(c);
        }
        i = i + 1;
        proof {
            let pre = s@.subrange(0, i as int);
            assert(pre.drop_last() =~= s@.subrange(0, i - 1));
            assert(pre.last() == c);
            assert(out@ =~= old(out)@ + esc_seq(pre));
        }
    }
    proof {
        assert(s@.subrange(0, s@.len() as int) =~= s@);
    }
}

fn push_quoted(out: &mut Vec<char>, s: &str)
    ensures
        final(out)@ == old(out)@ + quoted(s@),
{
    out.push('"');
    let chars = str_to_chars(s);
    push_escaped(out, &chars);
    out.push('"');
    proof {
        assert(out@ =~= old(out)@ + quoted(s@));
    }
}

fn push_str(out: &mut Vec<char>, s: &str)
    ensures
        final(out)@ == old(out)@ + s@,
{
    let chars = str_to_chars(s);
    let mut i: usize = 0;
    while i < chars.len()
        invariant
            i <= chars@.len(),
            chars@ == s@,
            out@ =~= old(out)@ + s@.subrange(0, i as int),
        decreases chars@.len() - i,
    {
        out.push(chars[i]);
        i = i + 1;
        proof {
            assert(out@ =~= old(out)@ + s@.subrange(0, i as int));
        }
    }
    proof {
        assert(out@ =~= old(out)@ + s@);
    }
}

fn push_opt_str(out: &mut Vec<char>, o: &Option<String>)
    ensures
        final(out)@ == old(out)@ + opt_str_json(
            match o {
                Some(s) => Some(s@),
                None => None,
            },
        ),
{
    match o {
        Some(s) => push_quoted(out, s.as_str()),
        None => push_str(out, "null"),
    }
}

fn push_u64(out: &mut Vec<char>, n: u64)
    ensures
        final(out)@ == old(out)@ + dec_digits(n as nat),
{
    let digits = u64_to_dec_chars(n);
    let mut i: usize = 0;
    while i < digits.len()
        invariant
            i <= digits@.len(),
            digits@ == dec_digits(n as nat),
            out@ =~= old(out)@ + digits@.subrange(0, i as int),
        decreases digits@.len() - i,
    {
        out.push(digits[i]);
        i = i + 1;
        proof {
            assert(out@ =~= old(out)@ + digits@.subrange(0, i as int));
        }
    }
    proof {
        assert(out@ =~= old(out)@ + digits@);
    }
}

fn push_node(out: &mut Vec<char>, n: &RepoNode)
    ensures
        final(out)@ == old(out)@ + node_json(n@),
{
    push_str(out, "{\"name\":");
    push_quoted(out, n.name.as_str());
    push_str(out, ",\"path\":");
    push_quoted(out, n.path.as_str());
    push_str(out, ",\"kind\":");
    match n.kind {
        NodeKind::Dir => push_str(out, "\"Dir\""),
        NodeKind::RuleFile => push_str(out, "\"RuleFile\""),
        NodeKind::Manifest => push_str(out, "\"Manifest\""),
    }
    push_str(out, ",\"manifest_count\":");
    match n.manifest_count {
        Some(c) => push_u64(out, c as u64),
        None => push_str(out, "null"),
    }
    push_str(out, "}");
    proof {
        assert(out@ =~= old(out)@ + node_json(n@));
    }
}

/// Serialize a node list to its canonical text.
pub fn emit_nodes(nodes: &Vec<RepoNode>) -> (r: String)
    ensures
        r@ == nodes_json(views_of(nodes@)),
{
    let ghost vs = views_of(nodes@);
    let mut out: Vec<char> = Vec::new();
    out.push('[');
    proof {
        reveal_strlit("[");
        assert(out@ =~= "["@ + items_upto(vs, 0));
    }
    let mut i: usize = 0;
    while i < nodes.len()
        invariant
            i <= nodes@.len(),
            vs == views_of(nodes@),
            vs.len() == nodes@.len(),
            out@ == "["@ + items_upto(vs, i as int),
        decreases nodes@.len() - i,
    {
        if i > 0 {
            out.push(',');
            proof {
                assert(out@ =~= "["@ + items_upto(vs, i as int) + seq![',']);
            }
        }
        push_node(&mut out, &nodes[i]);
        i = i + 1;
        proof {
            assert((nodes@[i - 1])@ == vs[i - 1]);
            assert(out@ =~= "["@ + items_upto(vs, i as int));
        }
    }
    out.push(']');
    proof {
        reveal_strlit("]");
        assert(out@ =~= nodes_json(vs));
    }
    chars_to_string(&out)
}

/// Serialize a metadata record to its canonical text.
pub fn emit_meta(m: &CacheMetadata) -> (r: String)
    ensures
        r@ == meta_json(m@),
{
    let mut out: Vec<char> = Vec::new();
    push_str(&mut out, "{\"fetched_at\":");
    push_u64(&mut out, m.fetched_at);
    push_str(&mut out, ",\"etag\":");
    push_opt_str(&mut out, &m.etag);
    push_str(&mut out, ",\"last_modified\":");
    push_opt_str(&mut out, &m.last_modified);
    push_str(&mut out, ",\"owner\":");
    push_quoted(&mut out, m.owner.as_str());
    push_str(&mut out, ",\"repo\":");
    push_quoted(&mut out, m.repo.as_str());
    push_str(&mut out, ",\"branch\":");
    push_quoted(&mut out, m.branch.as_str());
    push_str(&mut out, "}");
    proof {
        assert(out@ =~= meta_json(m@));
    }
    chars_to_string(&out)
}

/// The text at position `i` continues with exactly `lit`.
spec fn lit_at(v: Seq<char>, i: int, lit: Seq<char>) -> bool {
    i + lit.len() <= v.len() && v.subrange(i, i + lit.len()) == lit
}

fn match_lit(v: &Vec<char>, i: usize, lit: &str) -> (r: Option<usize>)
    requires
        i <= v@.len(),
    ensures
        match r {
            Some(j) => lit_at(v@, i as int, lit@) && j as int == i + lit@.len(),
            None => !lit_at(v@, i as int, lit@),
        },
{
    let lc = str_to_chars(lit);
    let n: usize = v.len();
    if lc.len() > n - i {
        return None;
    }
    let mut k: usize = 0;
    while k < lc.len()
        invariant
            n == v@.len(),
            lc@ == lit@,
            i + lc@.len() <= n,
            k <= lc@.len(),
            forall|q: int| 0 <= q < k ==> v@[i + q] == lc@[q],
        decreases lc@.len() - k,
    {
        if v[i + k] != lc[k] {
            proof {
                assert(v@.subrange(i as int, i + lit@.len())[k as int] != lit@[k as int]);
            }
            return None;
        }
        k = k + 1;
    }
    proof {
        assert(v@.subrange(i as int, i + lit@.len()) =~= lit@);
    }
    Some(i + lc.len())
}

fn hex_val(c: char) -> (r: Option<u32>)
    ensures
        match r {
            Some(d) => d < 16 && hex_digit(d as nat) == c,
            None => forall|d: nat| d < 16 ==> hex_digit(d) != c,
        },
{
    if c == '0' { Some(0) }
    else if c == '1' { Some(1) }
    else if c == '2' { Some(2) }
    else if c == '3' { Some(3) }
    else if c == '4' { Some(4) }
    else if c == '5' { Some(5) }
    else if c == '6' { Some(6) }
    else if c == '7' { Some(7) }
    else if c == '8' { Some(8) }
    else if c == '9' { Some(9) }
    else if c == 'a' { Some(10) }
    else if c == 'b' { Some(11) }
    else if c == 'c' { Some(12) }
    else if c == 'd' { Some(13) }
    else if c == 'e' { Some(14) }
    else if c == 'f' { Some(15) }
    else { None }
}

/// Escaping distributes over concatenation.
proof fn lemma_esc_concat(a: Seq<char>, b: Seq<char>)
    ensures
        esc_seq(a + b) == esc_seq(a) + esc_seq(b),
    decreases b.len(),
{
    if b.len() == 0 {
        assert(a + b =~= a);
        assert(esc_seq(a) + esc_seq(b) =~= esc_seq(a));
    } else {
        lemma_esc_concat(a, b.drop_last());
        assert((a + b).drop_last() =~= a + b.drop_last());
        assert((a + b).last() == b.last());
        assert(esc_seq(a + b) =~= esc_seq(a) + esc_seq(b));
    }
}

/// Escaping peels one character from the front.
proof fn lemma_esc_left(s: Seq<char>)
    requires
        s.len() > 0,
    ensures
        esc_seq(s) == esc_char(s[0]) + esc_seq(s.drop_first()),
{
    assert(s =~= seq![s[0]] + s.drop_first());
    lemma_esc_concat(seq![s[0]], s.drop_first());
    reveal_with_fuel(esc_seq, 3);
    assert(seq![s[0]].drop_last() =~= Seq::<char>::empty());
    assert(esc_seq(seq![s[0]]) =~= esc_char(s[0]));
}

/// An escaped character's code stays below 93, so its nibbles fit.
proof fn lemma_escape_code(c: char)
    requires
        needs_escape(c),
    ensures
        (c as u32) < 93,
        ((c as u32) / 16) % 16 == (c as u32) / 16,
        ((c as u32) / 16) * 16 + (c as u32) % 16 == c as u32,
{
    assert((c as u32) / 16 < 16 && ((c as u32) / 16) * 16 + (c as u32) % 16 == c as u32)
        by (nonlinear_arith)
        requires
            (c as u32) < 93,
    ;
}

/// Characters with equal code points are equal.
proof fn lemma_char_code_inj(c1: char, c2: char)
    requires
        c1 as u32 == c2 as u32,
    ensures
        c1 == c2,
{
}

/// Distinct hex digits render as distinct characters.
proof fn lemma_hex_digit_inj(x: nat, y: nat)
    requires
        x < 16,
        y < 16,
        hex_digit(x) == hex_digit(y),
    ensures
        x == y,
{
}

/// Escaped bodies decode uniquely: an escaped prefix of an escaped string
/// comes from a prefix of the string itself.
proof fn lemma_esc_prefix_align(a: Seq<char>, b: Seq<char>)
    requires
        esc_seq(a).len() <= esc_seq(b).len(),
        esc_seq(a) == esc_seq(b).take(esc_seq(a).len() as int),
    ensures
        a.len() <= b.len(),
        a == b.take(a.len() as int),
    decreases a.len(),
{
    if a.len() == 0 {
        assert(a =~= b.take(0));
    } else {
        lemma_esc_left(a);
        if b.len() == 0 {
            assert(esc_char(a[0]).len() >= 1);
            assert(esc_seq(a).len() >= 1);
            assert(false);
        }
        lemma_esc_left(b);
        assert(esc_seq(a)[0] == esc_char(a[0])[0]);
        assert(esc_seq(b)[0] == esc_char(b[0])[0]);
        assert(esc_char(a[0])[0] == esc_char(b[0])[0]);
        if needs_escape(a[0]) && needs_escape(b[0]) {
            let ca = a[0] as u32;
            let cb = b[0] as u32;
            lemma_escape_code(a[0]);
            lemma_escape_code(b[0]);
            assert(esc_seq(a)[4] == hex_digit((ca / 16) as nat));
            assert(esc_seq(b)[4] == hex_digit((cb / 16) as nat));
            assert(esc_seq(a)[5] == hex_digit((ca % 16) as nat));
            assert(esc_seq(b)[5] == hex_digit((cb % 16) as nat));
            assert(esc_seq(a)[4] == esc_seq(b)[4] && esc_seq(a)[5] == esc_seq(b)[5]);
            lemma_hex_digit_inj((ca / 16) as nat, (cb / 16) as nat);
            lemma_hex_digit_inj((ca % 16) as nat, (cb % 16) as nat);
            assert(ca == cb);
            lemma_char_code_inj(a[0], b[0]);
        } else if needs_escape(a[0]) {
            assert(esc_char(b[0])[0] == b[0] && b[0] != '\\');
            assert(esc_char(a[0])[0] == '\\');
            assert(false);
        } else if needs_escape(b[0]) {
            assert(esc_char(a[0])[0] == a[0] && a[0] != '\\');
            assert(esc_char(b[0])[0] == '\\');
            assert(false);
        } else {
            assert(esc_char(a[0])[0] == a[0] && esc_char(b[0])[0] == b[0]);
        }
        assert(a[0] == b[0]);
        let w = esc_char(a[0]).len() as int;
        assert(esc_char(b[0]).len() == w);
        assert(esc_seq(a.drop_first()) =~= esc_seq(a).subrange(w, esc_seq(a).len() as int));
        assert(esc_seq(b.drop_first()) =~= esc_seq(b).subrange(w, esc_seq(b).len() as int));
        assert(esc_seq(a.drop_first()) =~= esc_seq(b.drop_first()).take(
            esc_seq(a.drop_first()).len() as int,
        ));
        lemma_esc_prefix_align(a.drop_first(), b.drop_first());
        assert forall|q: int| 1 <= q < a.len() implies a[q] == b[q] by {
            assert(a.drop_first()[q - 1] == b.drop_first().take((a.len() - 1) as int)[q - 1]);
        }
        assert(a =~= b.take(a.len() as int));
    }
}

/// The text at `i` holds exactly the quoted encoding of `s`, ending at `j`.
pub open spec fn quoted_at(v: Seq<char>, i: int, s: Seq<char>, j: int) -> bool {
    &&& 0 <= i
    &&& i <= j <= v.len()
    &&& v.subrange(i, j) == quoted(s)
}

/// Inside a scan aligned with some quoted witness, the scanned value is a
/// prefix of the witness, and the region ahead continues the witness.
proof fn lemma_scan_witness(v: Seq<char>, i: int, p: int, outv: Seq<char>, s: Seq<char>, j: int)
    requires
        0 <= i < p <= v.len(),
        v.subrange(i + 1, p) == esc_seq(outv),
        quoted_at(v, i, s, j),
        p <= j - 1,
    ensures
        outv.len() <= s.len(),
        outv == s.take(outv.len() as int),
        outv.len() < s.len() ==> (p + esc_char(s[outv.len() as int]).len() <= j - 1
            && v.subrange(p, p + esc_char(s[outv.len() as int]).len() as int) == esc_char(
            s[outv.len() as int],
        )),
        outv.len() == s.len() ==> p == j - 1,
{
    assert(j - i == quoted(s).len());
    assert(quoted(s).len() == esc_seq(s).len() + 2);
    assert(v.subrange(i, j)[0] == '"');
    assert(v.subrange(i + 1, j - 1) =~= esc_seq(s)) by {
        assert forall|q: int| 0 <= q < j - 1 - (i + 1) implies v.subrange(i + 1, j - 1)[q]
            == esc_seq(s)[q] by {
            assert(v.subrange(i, j)[q + 1] == quoted(s)[q + 1]);
            assert(quoted(s)[q + 1] == esc_seq(s)[q]);
        }
    }
    assert(esc_seq(outv) =~= esc_seq(s).take(esc_seq(outv).len() as int)) by {
        assert forall|q: int| 0 <= q < esc_seq(outv).len() implies esc_seq(outv)[q]
            == esc_seq(s)[q] by {
            assert(v.subrange(i + 1, p)[q] == v.subrange(i + 1, j - 1)[q]);
        }
    }
    lemma_esc_prefix_align(outv, s);
    let k = outv.len() as int;
    assert(esc_seq(s) == esc_seq(s.take(k)) + esc_seq(s.skip(k))) by {
        assert(s =~= s.take(k) + s.skip(k));
        lemma_esc_concat(s.take(k), s.skip(k));
    }
    if k < s.len() {
        lemma_esc_left(s.skip(k));
        assert(s.skip(k)[0] == s[k]);
        let tok = esc_char(s[k]);
        assert(esc_seq(s).len() == j - 1 - (i + 1));
        assert(p - (i + 1) == esc_seq(outv).len());
        assert(esc_seq(s.skip(k)).len() >= tok.len());
        assert(p + tok.len() <= j - 1);
        assert(v.subrange(p, p + tok.len() as int) =~= tok) by {
            assert forall|q: int| 0 <= q < tok.len() implies v.subrange(
                p,
                p + tok.len() as int,
            )[q] == tok[q] by {
                assert(v.subrange(i + 1, j - 1)[p - (i + 1) + q] == esc_seq(s)[p - (i + 1)
                    + q]);
                assert(esc_seq(s)[esc_seq(outv).len() + q] == esc_seq(s.skip(k))[q]);
                assert(esc_seq(s.skip(k))[q] == tok[q]);
            }
        }
    } else {
        assert(s.take(k) =~= s);
        assert(esc_seq(s.skip(k)).len() == 0) by {
            assert(s.skip(k) =~= Seq::<char>::empty());
        }
        assert(p == j - 1);
    }
}

fn parse_string(v: &Vec<char>, i: usize) -> (r: Option<(String, usize)>)
    requires
        i <= v@.len(),
    ensures
        match r {
            Some((out, j)) => i < j <= v@.len() && quoted_at(v@, i as int, out@, j as int),
            None => true,
        },
        forall|s: Seq<char>, j: int|
            quoted_at(v@, i as int, s, j) ==> (r matches Some(x) && s == x.0@ && j == x.1),
{
    let len: usize = v.len();
    proof {
        assert forall|s: Seq<char>, j: int|
            quoted_at(v@, i as int, s, j) implies v@[i as int] == '"' && i + 2 <= j <= len by {
            assert(j - i == quoted(s).len());
            assert(quoted(s).len() == esc_seq(s).len() + 2);
            assert(v@.subrange(i as int, j)[0] == quoted(s)[0]);
            assert(quoted(s)[0] == '"');
        }
    }
    if i >= len || v[i] != '"' {
        return None;
    }
    let mut out: Vec<char> = Vec::new();
    let mut p: usize = i + 1;
    proof {
        assert(v@.subrange(i + 1, i + 1) =~= esc_seq(out@));
    }
    while p < len
        invariant
            i < p <= len,
            len == v@.len(),
            v@[i as int] == '"',
            v@.subrange(i + 1, p as int) == esc_seq(out@),
            forall|s: Seq<char>, j: int| quoted_at(v@, i as int, s, j) ==> p <= j - 1,
        decreases len - p,
    {
        let c: char = v[p];
        if c == '"' {
            proof {
                assert(v@.subrange(i as int, p + 1) =~= quoted(out@));
                assert forall|s: Seq<char>, j: int|
                    quoted_at(v@, i as int, s, j) implies (s == out@ && j == p + 1) by {
                    lemma_scan_witness(v@, i as int, p as int, out@, s, j);
                    if (out@.len() as int) < s.len() {
                        let tok = esc_char(s[out@.len() as int]);
                        assert(v@.subrange(p as int, p + tok.len() as int)[0] == tok[0]);
                        assert(tok[0] != '"');
                        assert(false);
                    }
                    assert(s =~= out@);
                    assert(quoted(s).len() == j - i);
                    assert(quoted(out@).len() == p + 1 - i);
                }
            }
            return Some((chars_to_string(&out), p + 1));
        }
        proof {
            assert forall|s: Seq<char>, j: int|
                quoted_at(v@, i as int, s, j) implies out@.len() < s.len() && v@.subrange(
                p as int,
                p + esc_char(s[out@.len() as int]).len() as int,
            ) == esc_char(s[out@.len() as int]) && p + esc_char(
                s[out@.len() as int],
            ).len() <= j - 1 by {
                lemma_scan_witness(v@, i as int, p as int, out@, s, j);
                if out@.len() == s.len() {
                    assert(p == j - 1);
                    assert(v@.subrange(i as int, j)[p - i] == quoted(s)[p - i]);
                    assert(quoted(s)[(quoted(s).len() - 1) as int] == '"');
                    assert(false);
                }
            }
        }
        if c == '\\' {
            if len - p < 6 {
                proof {
                    assert forall|s: Seq<char>, j: int| !quoted_at(v@, i as int, s, j) by {
                        if quoted_at(v@, i as int, s, j) {
                            let tok = esc_char(s[out@.len() as int]);
                            assert(tok[0] == v@[p as int]);
                            assert(needs_escape(s[out@.len() as int])) by {
                                if !needs_escape(s[out@.len() as int]) {
                                    assert(tok[0] != '\\');
                                }
                            }
                            assert(tok.len() == 6);
                            assert(p + 6 <= j - 1 <= len);
                        }
                    }
                }
                return None;
            }
            proof {
                assert forall|s: Seq<char>, j: int|
                    quoted_at(v@, i as int, s, j) implies (needs_escape(s[out@.len() as int])
                    && v@[p + 1] == 'u' && v@[p + 2] == '0' && v@[p + 3] == '0' && v@[p + 4]
                    == hex_digit(((s[out@.len() as int] as u32) / 16) as nat) && v@[p + 5]
                    == hex_digit(((s[out@.len() as int] as u32) % 16) as nat)) by {
                    let w = s[out@.len() as int];
                    let tok = esc_char(w);
                    assert(needs_escape(w)) by {
                        if !needs_escape(w) {
                            assert(tok[0] != '\\');
                        }
                    }
                    lemma_escape_code(w);
                    assert(v@.subrange(p as int, p + 6)[1] == tok[1]);
                    assert(v@.subrange(p as int, p + 6)[2] == tok[2]);
                    assert(v@.subrange(p as int, p + 6)[3] == tok[3]);
                    assert(v@.subrange(p as int, p + 6)[4] == tok[4]);
                    assert(v@.subrange(p as int, p + 6)[5] == tok[5]);
                }
            }
            if v[p + 1] != 'u' || v[p + 2] != '0' || v[p + 3] != '0' {
                return None;
            }
            let hi = match hex_val(v[p + 4]) {
                Some(d) => d,
                None => {
                    proof {
                        assert forall|s: Seq<char>, j: int| !quoted_at(v@, i as int, s, j) by {
                            if quoted_at(v@, i as int, s, j) {
                                let w = s[out@.len() as int];
                                lemma_escape_code(w);
                                assert(hex_digit(((w as u32) / 16) as nat) == v@[p + 4]);
                            }
                        }
                    }
                    return None;
                },
            };
            let lo = match hex_val(v[p + 5]) {
                Some(d) => d,
                None => {
                    proof {
                        assert forall|s: Seq<char>, j: int| !quoted_at(v@, i as int, s, j) by {
                            if quoted_at(v@, i as int, s, j) {
                                let w = s[out@.len() as int];
                                assert(hex_digit(((w as u32) % 16) as nat) == v@[p + 5]);
                            }
                        }
                    }
                    return None;
                },
            };
            let code: u32 = hi * 16 + lo;
            if !(code < 32 || code == 34 || code == 92) {
                proof {
                    assert forall|s: Seq<char>, j: int| !quoted_at(v@, i as int, s, j) by {
                        if quoted_at(v@, i as int, s, j) {
                            let w = s[out@.len() as int];
                            lemma_escape_code(w);
                            assert((w as u32) / 16 == hi as nat && (w as u32) % 16
                                == lo as nat);
                            assert(w as u32 == code);
                            assert((w as u32) < 32 || w == '"' || w == '\\');
                            assert('"' as u32 == 34 && '\\' as u32 == 92);
                        }
                    }
                }
                return None;
            }
            let ch: char = (code as u8) as char;
            let ghost out0 = out@;
            out.push(ch);
            p = p + 6;
            proof {
                assert(needs_escape(ch)) by {
                    assert(ch as u32 == code);
                    assert('"' as u32 == 34 && '\\' as u32 == 92);
                }
                assert(esc_char(ch) =~= v@.subrange(p - 6, p as int)) by {
                    assert(ch as u32 == code);
                    assert(code / 16 == hi && code % 16 == lo) by (nonlinear_arith)
                        requires
                            code == hi * 16 + lo,
                            hi < 16,
                            lo < 16,
                    ;
                    assert((code / 16) % 16 == code / 16);
                }
                assert(esc_seq(out@) == esc_seq(out0) + esc_char(ch)) by {
                    assert(out@.drop_last() =~= out0);
                }
                assert(v@.subrange(i + 1, p as int) =~= esc_seq(out0) + esc_char(ch));
                assert forall|s: Seq<char>, j: int|
                    quoted_at(v@, i as int, s, j) implies p <= j - 1 by {
                    let w = s[out0.len() as int];
                    assert(needs_escape(w));
                    assert(esc_char(w).len() == 6);
                }
            }
        } else {
            if (c as u32) < 32 {
                proof {
                    assert forall|s: Seq<char>, j: int| !quoted_at(v@, i as int, s, j) by {
                        if quoted_at(v@, i as int, s, j) {
                            let w = s[out@.len() as int];
                            let tok = esc_char(w);
                            assert(tok[0] == v@[p as int]);
                            if needs_escape(w) {
                                assert(tok[0] == '\\');
                                assert(('\\' as u32) >= 32);
                            } else {
                                assert(tok[0] == w);
                                assert(!needs_escape(c));
                            }
                        }
                    }
                }
                return None;
            }
            let ghost out0 = out@;
            out.push(c);
            p = p + 1;
            proof {
                assert(!needs_escape(c));
                assert(esc_char(c) =~= seq![c]);
                assert(esc_seq(out@) == esc_seq(out0) + esc_char(c)) by {
                    assert(out@.drop_last() =~= out0);
                }
                assert(v@.subrange(i + 1, p as int) =~= esc_seq(out0) + esc_char(c));
                assert forall|s: Seq<char>, j: int|
                    quoted_at(v@, i as int, s, j) implies p <= j - 1 by {
                    let w = s[out0.len() as int];
                    assert(esc_char(w)[0] == v@[p - 1]);
                    if needs_escape(w) {
                        assert(esc_char(w)[0] == '\\');
                    }
                    assert(esc_char(w).len() == 1);
                }
            }
        }
    }
    proof {
        assert forall|s: Seq<char>, j: int| !quoted_at(v@, i as int, s, j) by {
            if quoted_at(v@, i as int, s, j) {
                assert(p <= j - 1 && j <= len);
            }
        }
    }
    None
}

/// A decimal digit character.
pub open spec fn is_digit_char(c: char) -> bool {
    '0' <= c && c <= '9'
}

/// The value of a digit character.
pub open spec fn digit_val(c: char) -> nat {
    if c == '0' { 0 }
    else if c == '1' { 1 }
    else if c == '2' { 2 }
    else if c == '3' { 3 }
    else if c == '4' { 4 }
    else if c == '5' { 5 }
    else if c == '6' { 6 }
    else if c == '7' { 7 }
    else if c == '8' { 8 }
    else { 9 }
}

/// The value of a digit string.
pub open spec fn seq_val(s: Seq<char>) -> nat
    decreases s.len(),
{
    if s.len() == 0 {
        0
    } else {
        seq_val(s.drop_last()) * 10 + digit_val(s.last())
    }
}

/// Shape of a decimal rendering: at least one character, all digits, no
/// leading zero (except for zero itself), and its digit value is the
/// rendered number.
proof fn lemma_dec_digits_shape(n: nat)
    ensures
        dec_digits(n).len() >= 1,
        forall|k: int| 0 <= k < dec_digits(n).len() ==> is_digit_char(#[trigger] dec_digits(n)[k]),
        seq_val(dec_digits(n)) == n,
        n >= 1 ==> dec_digits(n)[0] != '0',
    decreases n,
{
    if n < 10 {
        reveal_with_fuel(seq_val, 3);
        assert(dec_digits(n) =~= seq![digit_char(n)]);
        assert(dec_digits(n).drop_last() =~= Seq::<char>::empty());
        assert(digit_val(digit_char(n)) == n);
        assert(seq_val(dec_digits(n)) == seq_val(Seq::<char>::empty()) * 10 + digit_val(
            digit_char(n),
        ));
    } else {
        lemma_dec_digits_shape(n / 10);
        let tail = seq![digit_char(n % 10)];
        assert(dec_digits(n) == dec_digits(n / 10) + tail);
        assert(dec_digits(n).drop_last() =~= dec_digits(n / 10));
        assert(dec_digits(n).last() == digit_char(n % 10));
        assert(seq_val(dec_digits(n)) == (n / 10) * 10 + (n % 10));
        assert((n / 10) * 10 + (n % 10) == n) by (nonlinear_arith);
        assert(dec_digits(n)[0] == dec_digits(n / 10)[0]);
    }
}

/// Prefixes of a digit string are worth no more than the whole.
proof fn lemma_seq_val_take_le(s: Seq<char>, m: int)
    requires
        0 <= m <= s.len(),
    ensures
        seq_val(s.take(m)) <= seq_val(s),
    decreases s.len() - m,
{
    if m == s.len() {
        assert(s.take(m) =~= s);
    } else {
        lemma_seq_val_take_le(s, m + 1);
        assert(s.take(m + 1).drop_last() =~= s.take(m));
        assert(seq_val(s.take(m + 1)) == seq_val(s.take(m)) * 10 + digit_val(s[m]));
    }
}

fn digit_of(c: char) -> (r: Option<u64>)
    ensures
        match r {
            Some(d) => d < 10 && digit_char(d as nat) == c && digit_val(c) == d as nat
                && is_digit_char(c),
            None => !is_digit_char(c),
        },
{
    if c == '0' { Some(0) }
    else if c == '1' { Some(1) }
    else if c == '2' { Some(2) }
    else if c == '3' { Some(3) }
    else if c == '4' { Some(4) }
    else if c == '5' { Some(5) }
    else if c == '6' { Some(6) }
    else if c == '7' { Some(7) }
    else if c == '8' { Some(8) }
    else if c == '9' { Some(9) }
    else { None }
}

/// The text at `i` holds exactly the decimal rendering of `n`, ending at
/// `j`, with no digit following.
pub open spec fn u64_at(v: Seq<char>, i: int, n: u64, j: int) -> bool {
    &&& i <= j <= v.len()
    &&& v.subrange(i, j) == dec_digits(n as nat)
    &&& (j == v.len() || !is_digit_char(v[j]))
}

fn parse_u64(v: &Vec<char>, i: usize) -> (r: Option<(u64, usize)>)
    requires
        i <= v@.len(),
    ensures
        match r {
            Some((n, j)) => i < j <= v@.len() && u64_at(v@, i as int, n, j as int),
            None => true,
        },
        forall|n: u64, j: int| u64_at(v@, i as int, n, j) ==> r == Some((n, j as usize)),
{
    let len: usize = v.len();
    if i >= len {
        proof {
            assert forall|n: u64, j: int| !u64_at(v@, i as int, n, j) by {
                lemma_dec_digits_shape(n as nat);
            }
        }
        return None;
    }
    let d0 = match digit_of(v[i]) {
        Some(d) => d,
        None => {
            proof {
                assert forall|n: u64, j: int| !u64_at(v@, i as int, n, j) by {
                    lemma_dec_digits_shape(n as nat);
                    if u64_at(v@, i as int, n, j) {
                        assert(v@[i as int] == dec_digits(n as nat)[0]);
                    }
                }
            }
            return None;
        },
    };
    if d0 == 0 {
        if i + 1 < len {
            if digit_of(v[i + 1]).is_some() {
                proof {
                    assert forall|n: u64, j: int| !u64_at(v@, i as int, n, j) by {
                        lemma_dec_digits_shape(n as nat);
                        if u64_at(v@, i as int, n, j) {
                            assert(v@[i as int] == dec_digits(n as nat)[0]);
                            assert(n == 0) by {
                                if n >= 1 {
                                    assert(dec_digits(n as nat)[0] != '0');
                                }
                            }
                            assert(dec_digits(0nat) =~= seq![digit_char(0nat)]);
                            assert(j == i + 1);
                        }
                    }
                }
                return None;
            }
        }
        proof {
            assert(v@.subrange(i as int, i + 1) =~= seq![v@[i as int]]);
            assert(dec_digits(0nat) =~= seq![digit_char(0nat)]);
            assert(u64_at(v@, i as int, 0u64, i + 1));
            assert forall|n: u64, j: int|
                u64_at(v@, i as int, n, j) implies (n == 0u64 && j == i + 1) by {
                lemma_dec_digits_shape(n as nat);
                assert(v@[i as int] == dec_digits(n as nat)[0]);
                if n >= 1 {
                    assert(dec_digits(n as nat)[0] != '0');
                }
                assert(dec_digits(n as nat) =~= seq![digit_char(0nat)]);
            }
        }
        return Some((0, i + 1));
    }
    let mut acc: u64 = d0;
    let mut p: usize = i + 1;
    proof {
        assert(v@.subrange(i as int, i + 1) =~= seq![v@[i as int]]);
        assert(dec_digits(acc as nat) =~= seq![digit_char(acc as nat)]);
    }
    loop
        invariant
            i < p <= len,
            len == v@.len(),
            1 <= acc,
            v@.subrange(i as int, p as int) == dec_digits(acc as nat),
        decreases len - p,
    {
        proof {
            lemma_dec_digits_shape(acc as nat);
        }
        if p == len {
            proof {
                lemma_u64_at_unique(v@, i as int, acc, p as int);
            }
            return Some((acc, p));
        }
        let d = match digit_of(v[p]) {
            Some(d) => d,
            None => {
                proof {
                    lemma_u64_at_unique(v@, i as int, acc, p as int);
                }
                return Some((acc, p));
            },
        };
        if acc > (u64::MAX - d) / 10 {
            proof {
                assert(acc * 10 + d > u64::MAX) by (nonlinear_arith)
                    requires
                        acc > (u64::MAX - d) / 10,
                        d < 10,
                ;
                assert forall|n: u64, j: int| !u64_at(v@, i as int, n, j) by {
                    if u64_at(v@, i as int, n, j) {
                        lemma_dec_digits_shape(n as nat);
                        lemma_scan_below_witness(v@, i as int, acc, p as int, d, n, j);
                    }
                }
            }
            return None;
        }
        let ghost acc0 = acc;
        acc = acc * 10 + d;
        p = p + 1;
        proof {
            assert(dec_digits(acc as nat) == dec_digits(acc0 as nat).push(digit_char(d as nat)))
                by {
                assert(acc as nat / 10 == acc0 as nat && acc as nat % 10 == d as nat)
                    by (nonlinear_arith)
                    requires
                        acc as nat == acc0 as nat * 10 + d as nat,
                        d < 10,
                ;
                assert(dec_digits(acc as nat).drop_last() =~= dec_digits(acc0 as nat));
                assert(dec_digits(acc as nat) =~= dec_digits(acc0 as nat).push(
                    digit_char(d as nat),
                ));
            }
            assert(v@.subrange(i as int, p as int) =~= v@.subrange(i as int, p - 1).push(
                v@[p - 1],
            ));
        }
    }
}

/// A digit run already scanned as `acc`, about to extend with digit `d` at
/// position `p`, stays within any witness rendering at the same start.
proof fn lemma_scan_below_witness(
    v: Seq<char>,
    i: int,
    acc: u64,
    p: int,
    d: u64,
    n: u64,
    j: int,
)
    requires
        0 <= i < p <= v.len(),
        v.subrange(i, p) == dec_digits(acc as nat),
        p < v.len(),
        is_digit_char(v[p]),
        digit_val(v[p]) == d as nat,
        d < 10,
        u64_at(v, i, n, j),
    ensures
        acc as nat * 10 + d as nat <= n,
{
    lemma_dec_digits_shape(n as nat);
    lemma_dec_digits_shape(acc as nat);
    assert(j > p) by {
        if j <= p {
            assert(v[j] == dec_digits(acc as nat)[j - i] || j == p);
            if j < p {
                assert(v[j] == v.subrange(i, p)[j - i]);
                assert(is_digit_char(v[j]));
            }
        }
    }
    let wit = v.subrange(i, j);
    assert(wit.take(p + 1 - i) =~= v.subrange(i, p + 1));
    assert(v.subrange(i, p + 1).drop_last() =~= v.subrange(i, p));
    assert(v.subrange(i, p + 1).last() == v[p]);
    assert(seq_val(v.subrange(i, p + 1)) == seq_val(dec_digits(acc as nat)) * 10 + digit_val(
        v[p],
    ));
    lemma_seq_val_take_le(wit, p + 1 - i);
}

/// A scanned maximal digit run is the only witness at its start position.
proof fn lemma_u64_at_unique(v: Seq<char>, i: int, acc: u64, p: int)
    requires
        0 <= i < p <= v.len(),
        v.subrange(i, p) == dec_digits(acc as nat),
        p == v.len() || !is_digit_char(v[p]),
    ensures
        u64_at(v, i, acc, p),
        forall|n: u64, j: int| u64_at(v, i, n, j) ==> (n == acc && j == p),
{
    lemma_dec_digits_shape(acc as nat);
    assert forall|n: u64, j: int| u64_at(v, i, n, j) implies (n == acc && j == p) by {
        lemma_dec_digits_shape(n as nat);
        if j < p {
            assert(v[j] == v.subrange(i, p)[j - i]);
            assert(is_digit_char(v[j]));
        }
        if j > p {
            assert(v[p] == v.subrange(i, j)[p - i]);
            assert(is_digit_char(v[p]));
        }
        assert(j == p);
        assert(dec_digits(n as nat) == dec_digits(acc as nat));
        assert(n as nat == seq_val(dec_digits(n as nat)));
        assert(acc as nat == seq_val(dec_digits(acc as nat)));
    }
}

/// The text at `i` holds exactly the optional-string encoding of `o`.
pub open spec fn opt_str_at(v: Seq<char>, i: int, o: Option<Seq<char>>, j: int) -> bool {
    &&& 0 <= i
    &&& i <= j <= v.len()
    &&& v.subrange(i, j) == opt_str_json(o)
}

fn parse_opt_string(v: &Vec<char>, i: usize) -> (r: Option<(Option<String>, usize)>)
    requires
        i <= v@.len(),
    ensures
        match r {
            Some((o, j)) => i < j <= v@.len() && v@.subrange(i as int, j as int) == opt_str_json(
                match o {
                    Some(s) => Some(s@),
                    None => None,
                },
            ),
            None => true,
        },
        forall|o: Option<Seq<char>>, j: int|
            opt_str_at(v@, i as int, o, j) ==> (r matches Some(x) && j == x.1 && (match o {
                Some(s) => x.0 matches Some(xs) && xs@ == s,
                None => x.0 is None,
            })),
{
    proof {
        reveal_strlit("null");
    }
    match match_lit(v, i, "null") {
        Some(j) => {
            proof {
                assert forall|o: Option<Seq<char>>, j2: int|
                    opt_str_at(v@, i as int, o, j2) implies (j2 == j && o is None) by {
                    match o {
                        Some(s) => {
                            assert(j2 - i == quoted(s).len());
                            assert(quoted(s).len() == esc_seq(s).len() + 2);
                            assert(v@.subrange(i as int, j2)[0] == quoted(s)[0]);
                            assert(quoted(s)[0] == '"');
                            assert("null"@.len() == 4 && "null"@[0] == 'n');
                            assert(v@.subrange(i as int, i + "null"@.len())[0] == "null"@[0]);
                            assert(v@.subrange(i as int, j2)[0] == v@[i as int]);
                            assert(v@.subrange(i as int, i + 4)[0] == v@[i as int]);
                            assert(false);
                        },
                        None => {
                            assert(j2 - i == "null"@.len());
                        },
                    }
                }
            }
            Some((None, j))
        },
        None => {
            proof {
                assert forall|o: Option<Seq<char>>, j2: int|
                    opt_str_at(v@, i as int, o, j2) implies (o matches Some(s) && quoted_at(
                    v@,
                    i as int,
                    s,
                    j2,
                )) by {
                    if o is None {
                        assert(j2 - i == "null"@.len());
                        assert(lit_at(v@, i as int, "null"@));
                    }
                }
            }
            match parse_string(v, i) {
                Some((s, j)) => Some((Some(s), j)),
                None => None,
            }
        },
    }
}

/// The text at `i` holds exactly the encoding of node `nv`, ending at `j`.
pub open spec fn node_at(v: Seq<char>, i: int, nv: NodeView, j: int) -> bool {
    &&& 0 <= i
    &&& i <= j <= v.len()
    &&& v.subrange(i, j) == node_json(nv)
}

/// A segment of text equal to a concatenation splits at the seam.
proof fn lemma_split_at(v: Seq<char>, i: int, j: int, a: Seq<char>, b: Seq<char>)
    requires
        0 <= i <= j <= v.len(),
        v.subrange(i, j) == a + b,
    ensures
        i + a.len() <= j,
        v.subrange(i, i + a.len()) == a,
        v.subrange(i + a.len(), j) == b,
{
    assert(v.subrange(i, j).len() == j - i);
    assert((a + b).len() == a.len() + b.len());
    assert(j - i == a.len() + b.len());
    assert(v.subrange(i, i + a.len()) =~= a) by {
        assert forall|q: int| 0 <= q < a.len() implies v.subrange(i, i + a.len())[q] == a[q] by {
            assert(v.subrange(i, j)[q] == (a + b)[q]);
            assert(v.subrange(i, i + a.len())[q] == v.subrange(i, j)[q]);
        }
    }
    assert(v.subrange(i + a.len(), j) =~= b) by {
        assert forall|q: int| 0 <= q < b.len() implies v.subrange(i + a.len(), j)[q] == b[q] by {
            assert(v.subrange(i, j)[a.len() + q] == (a + b)[a.len() + q]);
            assert(v.subrange(i + a.len(), j)[q] == v.subrange(i, j)[a.len() + q]);
        }
    }
}

/// Adjacent text segments concatenate.
proof fn lemma_join_at(v: Seq<char>, a: int, b: int, c: int, x: Seq<char>, y: Seq<char>)
    requires
        0 <= a <= b <= c <= v.len(),
        v.subrange(a, b) == x,
        v.subrange(b, c) == y,
    ensures
        v.subrange(a, c) == x + y,
{
    assert(v.subrange(a, c) =~= x + y) by {
        assert forall|q: int| 0 <= q < c - a implies v.subrange(a, c)[q] == (x + y)[q] by {
            if q < b - a {
                assert(v.subrange(a, b)[q] == x[q]);
                assert(v.subrange(a, c)[q] == v.subrange(a, b)[q]);
            } else {
                assert(v.subrange(b, c)[q - (b - a)] == y[q - (b - a)]);
                assert(v.subrange(a, c)[q] == v.subrange(b, c)[q - (b - a)]);
            }
        }
    }
}

/// A node encoding splits into its nine pieces at fixed offsets.
proof fn lemma_node_decompose(v: Seq<char>, i: int, nv: NodeView, j: int)
    requires
        node_at(v, i, nv, j),
    ensures
        ({
            let o1 = i + "{\"name\":"@.len();
            let o2 = o1 + quoted(nv.name).len();
            let o3 = o2 + ",\"path\":"@.len();
            let o4 = o3 + quoted(nv.path).len();
            let o5 = o4 + ",\"kind\":"@.len();
            let o6 = o5 + kind_json(nv.kind).len();
            let o7 = o6 + ",\"manifest_count\":"@.len();
            let o8 = o7 + opt_count_json(nv.manifest_count).len();
            &&& lit_at(v, i, "{\"name\":"@)
            &&& quoted_at(v, o1, nv.name, o2)
            &&& lit_at(v, o2, ",\"path\":"@)
            &&& quoted_at(v, o3, nv.path, o4)
            &&& lit_at(v, o4, ",\"kind\":"@)
            &&& v.subrange(o5, o6) == kind_json(nv.kind)
            &&& lit_at(v, o6, ",\"manifest_count\":"@)
            &&& opt_count_at(v, o7, nv.manifest_count, o8)
            &&& lit_at(v, o8, "}"@)
            &&& j == o8 + "}"@.len()
        }),
{
    let enc = node_json(nv);
    assert(j - i == enc.len());
    let o1 = i + "{\"name\":"@.len();
    let o2 = o1 + quoted(nv.name).len();
    let o3 = o2 + ",\"path\":"@.len();
    let o4 = o3 + quoted(nv.path).len();
    let o5 = o4 + ",\"kind\":"@.len();
    let o6 = o5 + kind_json(nv.kind).len();
    let o7 = o6 + ",\"manifest_count\":"@.len();
    let o8 = o7 + opt_count_json(nv.manifest_count).len();
    let r8 = "}"@;
    let r7 = opt_count_json(nv.manifest_count) + r8;
    let r6 = ",\"manifest_count\":"@ + r7;
    let r5 = kind_json(nv.kind) + r6;
    let r4 = ",\"kind\":"@ + r5;
    let r3 = quoted(nv.path) + r4;
    let r2 = ",\"path\":"@ + r3;
    let r1 = quoted(nv.name) + r2;
    assert(enc =~= "{\"name\":"@ + r1);
    lemma_split_at(v, i, j, "{\"name\":"@, r1);
    lemma_split_at(v, o1, j, quoted(nv.name), r2);
    lemma_split_at(v, o2, j, ",\"path\":"@, r3);
    lemma_split_at(v, o3, j, quoted(nv.path), r4);
    lemma_split_at(v, o4, j, ",\"kind\":"@, r5);
    lemma_split_at(v, o5, j, kind_json(nv.kind), r6);
    lemma_split_at(v, o6, j, ",\"manifest_count\":"@, r7);
    lemma_split_at(v, o7, j, opt_count_json(nv.manifest_count), r8);
    reveal_strlit("}");
    match nv.manifest_count {
        Some(c) => {
            assert(v.subrange(o8, j)[0] == '}');
            assert(v[o8] == '}');
            assert(!is_digit_char('}'));
            assert(v.subrange(o7, o8) == dec_digits((c as u64) as nat));
        },
        None => {},
    }
}

/// The text at `i` holds exactly the optional-count encoding of `o`,
/// with no digit following a numeric form.
pub open spec fn opt_count_at(v: Seq<char>, i: int, o: Option<usize>, j: int) -> bool {
    &&& 0 <= i
    &&& i <= j <= v.len()
    &&& v.subrange(i, j) == opt_count_json(o)
    &&& (o is Some ==> u64_at(v, i, o->Some_0 as u64, j))
}

#[verifier::rlimit(100)]
#[verifier::spinoff_prover]
fn parse_node(v: &Vec<char>, i: usize) -> (r: Option<(RepoNode, usize)>)
    requires
        i <= v@.len(),
    ensures
        match r {
            Some((n, j)) => i < j <= v@.len() && node_at(v@, i as int, n@, j as int)
                && n.children is None,
            None => true,
        },
        forall|nv: NodeView, j: int|
            node_at(v@, i as int, nv, j) ==> (r matches Some(x) && x.0@ == nv && j == x.1),
{
    proof {
        reveal_strlit("{\"name\":");
        reveal_strlit(",\"path\":");
        reveal_strlit(",\"kind\":");
        reveal_strlit(",\"manifest_count\":");
        reveal_strlit("}");
        reveal_strlit("\"Dir\"");
        reveal_strlit("\"RuleFile\"");
        reveal_strlit("\"Manifest\"");
        reveal_strlit("null");
    }
    let p0 = match match_lit(v, i, "{\"name\":") {
        Some(j) => j,
        None => {
            proof {
                assert forall|nv: NodeView, j: int| !node_at(v@, i as int, nv, j) by {
                    if node_at(v@, i as int, nv, j) {
                        lemma_node_decompose(v@, i as int, nv, j);
                    }
                }
            }
            return None;
        },
    };
    let (name, p1) = match parse_string(v, p0) {
        Some(x) => x,
        None => {
            proof {
                assert forall|nv: NodeView, j: int| !node_at(v@, i as int, nv, j) by {
                    if node_at(v@, i as int, nv, j) {
                        lemma_node_decompose(v@, i as int, nv, j);
                        assert(quoted_at(
                            v@,
                            p0 as int,
                            nv.name,
                            p0 + quoted(nv.name).len(),
                        ));
                    }
                }
            }
            return None;
        },
    };
    let p2 = match match_lit(v, p1, ",\"path\":") {
        Some(j) => j,
        None => {
            proof {
                assert forall|nv: NodeView, j: int| !node_at(v@, i as int, nv, j) by {
                    if node_at(v@, i as int, nv, j) {
                        lemma_node_decompose(v@, i as int, nv, j);
                        assert(quoted_at(
                            v@,
                            p0 as int,
                            nv.name,
                            p0 + quoted(nv.name).len(),
                        ));
                        assert(p1 == p0 + quoted(nv.name).len());
                        assert(lit_at(v@, p1 as int, ",\"path\":"@));
                    }
                }
            }
            return None;
        },
    };
    let (path, p3) = match parse_string(v, p2) {
        Some(x) => x,
        None => {
            proof {
                assert forall|nv: NodeView, j: int| !node_at(v@, i as int, nv, j) by {
                    if node_at(v@, i as int, nv, j) {
                        lemma_node_decompose(v@, i as int, nv, j);
                    }
                }
            }
            return None;
        },
    };
    let p4 = match match_lit(v, p3, ",\"kind\":") {
        Some(j) => j,
        None => {
            proof {
                assert forall|nv: NodeView, j: int| !node_at(v@, i as int, nv, j) by {
                    if node_at(v@, i as int, nv, j) {
                        lemma_node_decompose(v@, i as int, nv, j);
                    }
                }
            }
            return None;
        },
    };
    proof {
        assert forall|nv: NodeView, j: int|
            node_at(v@, i as int, nv, j) implies (v@.subrange(
            p4 as int,
            p4 + kind_json(nv.kind).len(),
        ) == kind_json(nv.kind) && p4 + kind_json(nv.kind).len() <= v@.len()) by {
            lemma_node_decompose(v@, i as int, nv, j);
        }
    }
    let (kind, p5): (NodeKind, usize) = match match_lit(v, p4, "\"Dir\"") {
        Some(j) => (NodeKind::Dir, j),
        None => match match_lit(v, p4, "\"RuleFile\"") {
            Some(j) => (NodeKind::RuleFile, j),
            None => match match_lit(v, p4, "\"Manifest\"") {
                Some(j) => (NodeKind::Manifest, j),
                None => {
                    proof {
                        assert forall|nv: NodeView, j: int| !node_at(v@, i as int, nv, j) by {
                            if node_at(v@, i as int, nv, j) {
                                lemma_node_decompose(v@, i as int, nv, j);
                                assert(lit_at(v@, p4 as int, kind_json(nv.kind)));
                            }
                        }
                    }
                    return None;
                },
            },
        },
    };
    proof {
        assert forall|nv: NodeView, j: int|
            node_at(v@, i as int, nv, j) implies (nv.kind == kind && p5 == p4
            + kind_json(nv.kind).len()) by {
            lemma_node_decompose(v@, i as int, nv, j);
            assert(v@[p4 + 1] == kind_json(nv.kind)[1]);
        }
    }
    let p6 = match match_lit(v, p5, ",\"manifest_count\":") {
        Some(j) => j,
        None => {
            proof {
                assert forall|nv: NodeView, j: int| !node_at(v@, i as int, nv, j) by {
                    if node_at(v@, i as int, nv, j) {
                        lemma_node_decompose(v@, i as int, nv, j);
                    }
                }
            }
            return None;
        },
    };
    let (count, p7): (Option<usize>, usize) = match match_lit(v, p6, "null") {
        Some(j) => {
            proof {
                assert forall|nv: NodeView, j2: int|
                    node_at(v@, i as int, nv, j2) implies (nv.manifest_count is None && j == p6
                    + "null"@.len()) by {
                    lemma_node_decompose(v@, i as int, nv, j2);
                    if nv.manifest_count is Some {
                        lemma_dec_digits_shape((nv.manifest_count->Some_0 as u64) as nat);
                        assert(v@[p6 as int] == dec_digits(
                            (nv.manifest_count->Some_0 as u64) as nat,
                        )[0]);
                        assert(v@.subrange(p6 as int, p6 + "null"@.len())[0] == 'n');
                        assert(is_digit_char('n') == false);
                    }
                }
            }
            (None, j)
        },
        None => match parse_u64(v, p6) {
            Some((n, j)) => {
                proof {
                    assert forall|nv: NodeView, j2: int|
                        node_at(v@, i as int, nv, j2) implies (nv.manifest_count is Some && n
                        == nv.manifest_count->Some_0 as u64 && j == p6 + opt_count_json(
                        nv.manifest_count,
                    ).len()) by {
                        lemma_node_decompose(v@, i as int, nv, j2);
                        if nv.manifest_count is None {
                            assert(lit_at(v@, p6 as int, "null"@));
                        }
                    }
                }
                if n > usize::MAX as u64 {
                    proof {
                        assert forall|nv: NodeView, j2: int| !node_at(v@, i as int, nv, j2) by {
                            if node_at(v@, i as int, nv, j2) {
                                assert(n == nv.manifest_count->Some_0 as u64);
                            }
                        }
                    }
                    return None;
                }
                (Some(n as usize), j)
            },
            None => {
                proof {
                    assert forall|nv: NodeView, j2: int| !node_at(v@, i as int, nv, j2) by {
                        if node_at(v@, i as int, nv, j2) {
                            lemma_node_decompose(v@, i as int, nv, j2);
                            if nv.manifest_count is None {
                                assert(lit_at(v@, p6 as int, "null"@));
                            }
                        }
                    }
                }
                return None;
            },
        },
    };
    let p8 = match match_lit(v, p7, "}") {
        Some(j) => j,
        None => {
            proof {
                assert forall|nv: NodeView, j2: int| !node_at(v@, i as int, nv, j2) by {
                    if node_at(v@, i as int, nv, j2) {
                        lemma_node_decompose(v@, i as int, nv, j2);
                    }
                }
            }
            return None;
        },
    };
    let node = RepoNode { name, path, kind, children: None, manifest_count: count };
    proof {
        lemma_join_at(
            v@,
            i as int,
            p0 as int,
            p1 as int,
            "{\"name\":"@,
            quoted(name@),
        );
        lemma_join_at(
            v@,
            i as int,
            p1 as int,
            p2 as int,
            "{\"name\":"@ + quoted(name@),
            ",\"path\":"@,
        );
        lemma_join_at(
            v@,
            i as int,
            p2 as int,
            p3 as int,
            "{\"name\":"@ + quoted(name@) + ",\"path\":"@,
            quoted(path@),
        );
        lemma_join_at(
            v@,
            i as int,
            p3 as int,
            p4 as int,
            "{\"name\":"@ + quoted(name@) + ",\"path\":"@ + quoted(path@),
            ",\"kind\":"@,
        );
        lemma_join_at(
            v@,
            i as int,
            p4 as int,
            p5 as int,
            "{\"name\":"@ + quoted(name@) + ",\"path\":"@ + quoted(path@) + ",\"kind\":"@,
            kind_json(kind),
        );
        lemma_join_at(
            v@,
            i as int,
            p5 as int,
            p6 as int,
            "{\"name\":"@ + quoted(name@) + ",\"path\":"@ + quoted(path@) + ",\"kind\":"@
                + kind_json(kind),
            ",\"manifest_count\":"@,
        );
        lemma_join_at(
            v@,
            i as int,
            p6 as int,
            p7 as int,
            "{\"name\":"@ + quoted(name@) + ",\"path\":"@ + quoted(path@) + ",\"kind\":"@
                + kind_json(kind) + ",\"manifest_count\":"@,
            opt_count_json(count),
        );
        lemma_join_at(
            v@,
            i as int,
            p7 as int,
            p8 as int,
            "{\"name\":"@ + quoted(name@) + ",\"path\":"@ + quoted(path@) + ",\"kind\":"@
                + kind_json(kind) + ",\"manifest_count\":"@ + opt_count_json(count),
            "}"@,
        );
        assert(node_at(v@, i as int, node@, p8 as int));
        assert forall|nv: NodeView, j2: int|
            node_at(v@, i as int, nv, j2) implies (node@ == nv && j2 == p8) by {
            lemma_node_decompose(v@, i as int, nv, j2);
        }
    }
    Some((node, p8))
}

/// Appending the next item to an item-list encoding.
proof fn lemma_items_step(nv: Seq<NodeView>, m: int)
    requires
        0 <= m < nv.len(),
    ensures
        items_upto(nv, m + 1) == items_upto(nv, m) + (if m > 0 {
            seq![',']
        } else {
            Seq::<char>::empty()
        }) + node_json(nv[m]),
{
    if m == 0 {
        assert(items_upto(nv, 1) == node_json(nv[0]));
        assert(items_upto(nv, 0) + Seq::<char>::empty() + node_json(nv[0]) =~= node_json(
            nv[0],
        ));
    }
}

/// Shorter item-list encodings are prefixes of longer ones.
proof fn lemma_items_prefix_of(nv: Seq<NodeView>, k: int, n: int)
    requires
        0 <= k <= n <= nv.len(),
    ensures
        items_upto(nv, k).len() <= items_upto(nv, n).len(),
        items_upto(nv, k) == items_upto(nv, n).take(items_upto(nv, k).len() as int),
    decreases n - k,
{
    if k == n {
        assert(items_upto(nv, k) =~= items_upto(nv, n).take(items_upto(nv, k).len() as int));
    } else {
        lemma_items_prefix_of(nv, k, n - 1);
        lemma_items_step(nv, n - 1);
        assert(items_upto(nv, k) =~= items_upto(nv, n).take(items_upto(nv, k).len() as int));
    }
}

/// Item-list encodings depend only on the items they cover.
proof fn lemma_items_agree(s1: Seq<NodeView>, s2: Seq<NodeView>, k: int)
    requires
        0 <= k <= s1.len(),
        k <= s2.len(),
        forall|q: int| 0 <= q < k ==> s1[q] == s2[q],
    ensures
        items_upto(s1, k) == items_upto(s2, k),
    decreases k,
{
    if k > 0 {
        lemma_items_agree(s1, s2, k - 1);
    }
}

/// Facts a scanning loop needs at item `m` of a witnessed list encoding:
/// the next node encoding sits at `p`, and what follows it.
proof fn lemma_list_witness(v: Seq<char>, nv: Seq<NodeView>, m: int, p: int)
    requires
        v == nodes_json(nv),
        0 <= m < nv.len(),
        p == 1 + items_upto(nv, m).len() + (if m > 0 {
            1int
        } else {
            0
        }),
    ensures
        node_at(v, p, nv[m], p + node_json(nv[m]).len()),
        m + 1 < nv.len() ==> (p + node_json(nv[m]).len() + 1 <= v.len() && v[p + node_json(
            nv[m],
        ).len()] == ','),
        m + 1 == nv.len() ==> (p + node_json(nv[m]).len() + 1 == v.len() && v[p + node_json(
            nv[m],
        ).len()] == ']'),
{
    reveal_strlit("[");
    reveal_strlit("]");
    let n = nv.len() as int;
    let items = items_upto(nv, n);
    assert(v.len() == 1 + items.len() + 1);
    assert(v.subrange(1, 1 + items.len() as int) =~= items) by {
        assert forall|q: int| 0 <= q < items.len() implies v.subrange(1, 1 + items.len() as int)[q]
            == items[q] by {
            assert(v[1 + q] == ("["@ + items + "]"@)[1 + q]);
            assert(v.subrange(1, 1 + items.len() as int)[q] == v[1 + q]);
        }
    }
    lemma_items_step(nv, m);
    lemma_items_prefix_of(nv, m + 1, n);
    let pre = items_upto(nv, m) + (if m > 0 {
        seq![',']
    } else {
        Seq::<char>::empty()
    });
    assert(items_upto(nv, m + 1) == pre + node_json(nv[m]));
    assert(p - 1 == pre.len());
    assert(v.subrange(p, p + node_json(nv[m]).len()) =~= node_json(nv[m])) by {
        assert forall|q: int| 0 <= q < node_json(nv[m]).len() implies v.subrange(
            p,
            p + node_json(nv[m]).len(),
        )[q] == node_json(nv[m])[q] by {
            assert(items_upto(nv, m + 1)[pre.len() + q] == node_json(nv[m])[q]);
            assert(items[pre.len() + q] == items_upto(nv, m + 1).take(
                items_upto(nv, m + 1).len() as int,
            )[pre.len() + q]);
            assert(v.subrange(1, 1 + items.len() as int)[pre.len() + q] == items[pre.len() + q]);
            assert(v.subrange(p, p + node_json(nv[m]).len())[q] == v[p + q]);
            assert(v.subrange(1, 1 + items.len() as int)[pre.len() + q] == v[1 + pre.len() + q]);
        }
    }
    let e = p + node_json(nv[m]).len();
    if m + 1 < n {
        lemma_items_step(nv, m + 1);
        lemma_items_prefix_of(nv, m + 2, n);
        assert(items_upto(nv, m + 2)[items_upto(nv, m + 1).len() as int] == ',');
        assert(items[items_upto(nv, m + 1).len() as int] == ',');
        assert(v[1 + items_upto(nv, m + 1).len() as int] == ',');
        assert(e == 1 + items_upto(nv, m + 1).len());
    } else {
        assert(items_upto(nv, m + 1) == items);
        assert(e == 1 + items.len());
        assert(v[e] == ("["@ + items + "]"@)[e]);
        reveal_strlit("]");
    }
}

fn parse_nodes_raw(v: &Vec<char>) -> (r: Option<Vec<RepoNode>>)
    ensures
        match r {
            Some(nodes) => v@ == nodes_json(views_of(nodes@)),
            None => true,
        },
        forall|nv: Seq<NodeView>|
            v@ == nodes_json(nv) ==> (r matches Some(nodes) && views_of(nodes@) == nv),
{
    let len = v.len();
    proof {
        reveal_strlit("[");
        reveal_strlit("]");
        assert forall|nv: Seq<NodeView>|
            v@ == nodes_json(nv) implies (len >= 2 && v@[0] == '[' && v@[len - 1] == ']') by {
            assert(nodes_json(nv)[0] == '[');
            assert(nodes_json(nv)[(nodes_json(nv).len() - 1) as int] == ']');
        }
    }
    if len < 2 || v[0] != '[' {
        return None;
    }
    if v[1] == ']' {
        proof {
            assert forall|nv: Seq<NodeView>|
                v@ == nodes_json(nv) implies (len == 2 && nv.len() == 0) by {
                if nv.len() > 0 {
                    lemma_list_witness(v@, nv, 0, 1);
                    assert(v@.subrange(1, 1 + node_json(nv[0]).len() as int)[0] == node_json(nv[0])[0]);
                    assert(node_json(nv[0])[0] == '{') by {
                        reveal_strlit("{\"name\":");
                    }
                }
                assert(items_upto(nv, 0).len() == 0);
            }
        }
        if len == 2 {
            let out: Vec<RepoNode> = Vec::new();
            proof {
                assert(views_of(out@) =~= Seq::<NodeView>::empty());
                assert(nodes_json(views_of(out@)) =~= v@);
            }
            return Some(out);
        }
        return None;
    }
    proof {
        assert forall|nv: Seq<NodeView>| v@ == nodes_json(nv) implies nv.len() > 0 by {
            if nv.len() == 0 {
                assert(items_upto(nv, 0).len() == 0);
                assert(nodes_json(nv).len() == 2);
                assert(nodes_json(nv)[1] == ']');
            }
        }
    }
    let mut out: Vec<RepoNode> = Vec::new();
    let mut p: usize = 1;
    proof {
        assert(v@.subrange(0, 1) =~= "["@);
        assert("["@ + items_upto(views_of(out@), 0) + Seq::<char>::empty() =~= "["@);
    }
    loop
        invariant
            1 <= p <= len,
            len == v@.len(),
            v@.subrange(0, p as int) == "["@ + items_upto(views_of(out@), out@.len() as int) + (
            if out@.len() > 0 {
                seq![',']
            } else {
                Seq::<char>::empty()
            }),
            forall|nv: Seq<NodeView>|
                v@ == nodes_json(nv) ==> (out@.len() < nv.len() && views_of(out@) == nv.take(
                    out@.len() as int,
                ) && p as int == 1 + items_upto(nv, out@.len() as int).len() + (if out@.len()
                    > 0 {
                    1int
                } else {
                    0
                })),
        decreases len - p,
    {
        let ghost m = out@.len() as int;
        let ghost pold = p as int;
        let ghost consumed0 = v@.subrange(0, p as int);
        let (node, q) = match parse_node(v, p) {
            Some(x) => x,
            None => {
                proof {
                    assert forall|nv: Seq<NodeView>| v@ != nodes_json(nv) by {
                        if v@ == nodes_json(nv) {
                            lemma_list_witness(v@, nv, m, p as int);
                        }
                    }
                }
                return None;
            },
        };
        let ghost out0 = out@;
        out.push(node);
        proof {
            assert(views_of(out@) =~= views_of(out0).push(node@));
            assert forall|nv: Seq<NodeView>|
                v@ == nodes_json(nv) implies (node@ == nv[m] && q as int == pold + node_json(
                nv[m],
            ).len() && views_of(out@) == nv.take(m + 1)) by {
                lemma_list_witness(v@, nv, m, pold);
                assert(views_of(out@) =~= nv.take(m + 1));
            }
        }
        if q >= len {
            proof {
                assert forall|nv: Seq<NodeView>| v@ != nodes_json(nv) by {
                    if v@ == nodes_json(nv) {
                        lemma_list_witness(v@, nv, m, pold);
                    }
                }
            }
            return None;
        }
        proof {
            lemma_join_at(
                v@,
                0,
                pold,
                q as int,
                consumed0,
                node_json(node@),
            );
            lemma_items_agree(views_of(out@), views_of(out0), m);
            lemma_items_step(views_of(out@), m);
            assert(consumed0 + node_json(node@) =~= "["@ + items_upto(views_of(out@), m + 1));
        }
        if v[q] == ']' {
            if q + 1 == len {
                proof {
                    assert(v@.subrange(q as int, q + 1) =~= seq![']']);
                    lemma_join_at(
                        v@,
                        0,
                        q as int,
                        q + 1,
                        "["@ + items_upto(views_of(out@), m + 1),
                        seq![']'],
                    );
                    assert(v@.subrange(0, len as int) =~= v@);
                    reveal_strlit("]");
                    assert("]"@ =~= seq![']']);
                    assert(v@ =~= nodes_json(views_of(out@)));
                    assert forall|nv: Seq<NodeView>|
                        v@ == nodes_json(nv) implies views_of(out@) == nv by {
                        lemma_list_witness(v@, nv, m, pold);
                        if m + 1 < nv.len() {
                            assert(v@[q as int] == ',');
                        }
                        assert(nv.take(m + 1) =~= nv);
                    }
                }
                return Some(out);
            }
            proof {
                assert forall|nv: Seq<NodeView>| v@ != nodes_json(nv) by {
                    if v@ == nodes_json(nv) {
                        lemma_list_witness(v@, nv, m, pold);
                        if m + 1 < nv.len() {
                            assert(v@[q as int] == ',');
                        }
                    }
                }
            }
            return None;
        }
        if v[q] != ',' {
            proof {
                assert forall|nv: Seq<NodeView>| v@ != nodes_json(nv) by {
                    if v@ == nodes_json(nv) {
                        lemma_list_witness(v@, nv, m, pold);
                    }
                }
            }
            return None;
        }
        p = q + 1;
        proof {
            assert(v@.subrange(q as int, q + 1) =~= seq![',']);
            lemma_join_at(
                v@,
                0,
                q as int,
                q + 1,
                "["@ + items_upto(views_of(out@), m + 1),
                seq![','],
            );
            assert forall|nv: Seq<NodeView>|
                v@ == nodes_json(nv) implies (out@.len() < nv.len() && views_of(out@)
                == nv.take(out@.len() as int) && p as int == 1 + items_upto(
                nv,
                out@.len() as int,
            ).len() + 1) by {
                lemma_list_witness(v@, nv, m, pold);
                if m + 1 == nv.len() {
                    assert(v@[q as int] == ']');
                }
                lemma_items_step(nv, m);
                lemma_items_agree(views_of(out@), nv, m + 1);
            }
        }
    }
}

/// The whole text is exactly the encoding of metadata record `mv`.
pub open spec fn meta_at(v: Seq<char>, mv: MetaView) -> bool {
    v == meta_json(mv)
}

/// A metadata encoding splits into its thirteen pieces at fixed offsets.
#[verifier::rlimit(100)]
#[verifier::spinoff_prover]
proof fn lemma_meta_decompose(v: Seq<char>, mv: MetaView)
    requires
        meta_at(v, mv),
    ensures
        ({
            let o1 = 0int + "{\"fetched_at\":"@.len();
            let o2 = o1 + dec_digits(mv.fetched_at as nat).len();
            let o3 = o2 + ",\"etag\":"@.len();
            let o4 = o3 + opt_str_json(mv.etag).len();
            let o5 = o4 + ",\"last_modified\":"@.len();
            let o6 = o5 + opt_str_json(mv.last_modified).len();
            let o7 = o6 + ",\"owner\":"@.len();
            let o8 = o7 + quoted(mv.owner).len();
            let o9 = o8 + ",\"repo\":"@.len();
            let o10 = o9 + quoted(mv.repo).len();
            let o11 = o10 + ",\"branch\":"@.len();
            let o12 = o11 + quoted(mv.branch).len();
            &&& lit_at(v, 0, "{\"fetched_at\":"@)
            &&& u64_at(v, o1, mv.fetched_at, o2)
            &&& lit_at(v, o2, ",\"etag\":"@)
            &&& opt_str_at(v, o3, mv.etag, o4)
            &&& lit_at(v, o4, ",\"last_modified\":"@)
            &&& opt_str_at(v, o5, mv.last_modified, o6)
            &&& lit_at(v, o6, ",\"owner\":"@)
            &&& quoted_at(v, o7, mv.owner, o8)
            &&& lit_at(v, o8, ",\"repo\":"@)
            &&& quoted_at(v, o9, mv.repo, o10)
            &&& lit_at(v, o10, ",\"branch\":"@)
            &&& quoted_at(v, o11, mv.branch, o12)
            &&& lit_at(v, o12, "}"@)
            &&& v.len() == o12 + "}"@.len()
        }),
{
    let enc = meta_json(mv);
    assert(v.subrange(0, v.len() as int) =~= enc);
    let o1 = 0int + "{\"fetched_at\":"@.len();
    let o2 = o1 + dec_digits(mv.fetched_at as nat).len();
    let o3 = o2 + ",\"etag\":"@.len();
    let o4 = o3 + opt_str_json(mv.etag).len();
    let o5 = o4 + ",\"last_modified\":"@.len();
    let o6 = o5 + opt_str_json(mv.last_modified).len();
    let o7 = o6 + ",\"owner\":"@.len();
    let o8 = o7 + quoted(mv.owner).len();
    let o9 = o8 + ",\"repo\":"@.len();
    let o10 = o9 + quoted(mv.repo).len();
    let o11 = o10 + ",\"branch\":"@.len();
    let o12 = o11 + quoted(mv.branch).len();
    let j = v.len() as int;
    let r12 = "}"@;
    let r11 = quoted(mv.branch) + r12;
    let r10 = ",\"branch\":"@ + r11;
    let r9 = quoted(mv.repo) + r10;
    let r8 = ",\"repo\":"@ + r9;
    let r7 = quoted(mv.owner) + r8;
    let r6 = ",\"owner\":"@ + r7;
    let r5 = opt_str_json(mv.last_modified) + r6;
    let r4 = ",\"last_modified\":"@ + r5;
    let r3 = opt_str_json(mv.etag) + r4;
    let r2 = ",\"etag\":"@ + r3;
    let r1 = dec_digits(mv.fetched_at as nat) + r2;
    assert(enc =~= "{\"fetched_at\":"@ + r1);
    lemma_split_at(v, 0, j, "{\"fetched_at\":"@, r1);
    lemma_split_at(v, o1, j, dec_digits(mv.fetched_at as nat), r2);
    lemma_split_at(v, o2, j, ",\"etag\":"@, r3);
    lemma_split_at(v, o3, j, opt_str_json(mv.etag), r4);
    lemma_split_at(v, o4, j, ",\"last_modified\":"@, r5);
    lemma_split_at(v, o5, j, opt_str_json(mv.last_modified), r6);
    lemma_split_at(v, o6, j, ",\"owner\":"@, r7);
    lemma_split_at(v, o7, j, quoted(mv.owner), r8);
    lemma_split_at(v, o8, j, ",\"repo\":"@, r9);
    lemma_split_at(v, o9, j, quoted(mv.repo), r10);
    lemma_split_at(v, o10, j, ",\"branch\":"@, r11);
    lemma_split_at(v, o11, j, quoted(mv.branch), r12);
    reveal_strlit(",\"etag\":");
    assert(v.subrange(o2, o3)[0] == ',');
    assert(v[o2] == ',');
    assert(!is_digit_char(','));
}

#[verifier::rlimit(100)]
#[verifier::spinoff_prover]
fn parse_meta_raw(v: &Vec<char>) -> (r: Option<CacheMetadata>)
    ensures
        match r {
            Some(m) => v@ == meta_json(m@),
            None => true,
        },
        forall|mv: MetaView| meta_at(v@, mv) ==> (r matches Some(m) && m@ == mv),
{
    proof {
        reveal_strlit("{\"fetched_at\":");
        reveal_strlit(",\"etag\":");
        reveal_strlit(",\"last_modified\":");
        reveal_strlit(",\"owner\":");
        reveal_strlit(",\"repo\":");
        reveal_strlit(",\"branch\":");
        reveal_strlit("}");
        reveal_strlit("null");
    }
    let p0 = match match_lit(v, 0, "{\"fetched_at\":") {
        Some(j) => j,
        None => {
            proof {
                assert forall|mv: MetaView| !meta_at(v@, mv) by {
                    if meta_at(v@, mv) {
                        lemma_meta_decompose(v@, mv);
                    }
                }
            }
            return None;
        },
    };
    let (fetched_at, p1) = match parse_u64(v, p0) {
        Some(x) => x,
        None => {
            proof {
                assert forall|mv: MetaView| !meta_at(v@, mv) by {
                    if meta_at(v@, mv) {
                        lemma_meta_decompose(v@, mv);
                    }
                }
            }
            return None;
        },
    };
    let p2 = match match_lit(v, p1, ",\"etag\":") {
        Some(j) => j,
        None => {
            proof {
                assert forall|mv: MetaView| !meta_at(v@, mv) by {
                    if meta_at(v@, mv) {
                        lemma_meta_decompose(v@, mv);
                    }
                }
            }
            return None;
        },
    };
    let (etag, p3) = match parse_opt_string(v, p2) {
        Some(x) => x,
        None => {
            proof {
                assert forall|mv: MetaView| !meta_at(v@, mv) by {
                    if meta_at(v@, mv) {
                        lemma_meta_decompose(v@, mv);
                    }
                }
            }
            return None;
        },
    };
    let p4 = match match_lit(v, p3, ",\"last_modified\":") {
        Some(j) => j,
        None => {
            proof {
                assert forall|mv: MetaView| !meta_at(v@, mv) by {
                    if meta_at(v@, mv) {
                        lemma_meta_decompose(v@, mv);
                    }
                }
            }
            return None;
        },
    };
    let (last_modified, p5) = match parse_opt_string(v, p4) {
        Some(x) => x,
        None => {
            proof {
                assert forall|mv: MetaView| !meta_at(v@, mv) by {
                    if meta_at(v@, mv) {
                        lemma_meta_decompose(v@, mv);
                    }
                }
            }
            return None;
        },
    };
    let p6 = match match_lit(v, p5, ",\"owner\":") {
        Some(j) => j,
        None => {
            proof {
                assert forall|mv: MetaView| !meta_at(v@, mv) by {
                    if meta_at(v@, mv) {
                        lemma_meta_decompose(v@, mv);
                    }
                }
            }
            return None;
        },
    };
    let (owner, p7) = match parse_string(v, p6) {
        Some(x) => x,
        None => {
            proof {
                assert forall|mv: MetaView| !meta_at(v@, mv) by {
                    if meta_at(v@, mv) {
                        lemma_meta_decompose(v@, mv);
                    }
                }
            }
            return None;
        },
    };
    let p8 = match match_lit(v, p7, ",\"repo\":") {
        Some(j) => j,
        None => {
            proof {
                assert forall|mv: MetaView| !meta_at(v@, mv) by {
                    if meta_at(v@, mv) {
                        lemma_meta_decompose(v@, mv);
                    }
                }
            }
            return None;
        },
    };
    let (repo, p9) = match parse_string(v, p8) {
        Some(x) => x,
        None => {
            proof {
                assert forall|mv: MetaView| !meta_at(v@, mv) by {
                    if meta_at(v@, mv) {
                        lemma_meta_decompose(v@, mv);
                    }
                }
            }
            return None;
        },
    };
    let p10 = match match_lit(v, p9, ",\"branch\":") {
        Some(j) => j,
        None => {
            proof {
                assert forall|mv: MetaView| !meta_at(v@, mv) by {
                    if meta_at(v@, mv) {
                        lemma_meta_decompose(v@, mv);
                    }
                }
            }
            return None;
        },
    };
    let (branch, p11) = match parse_string(v, p10) {
        Some(x) => x,
        None => {
            proof {
                assert forall|mv: MetaView| !meta_at(v@, mv) by {
                    if meta_at(v@, mv) {
                        lemma_meta_decompose(v@, mv);
                    }
                }
            }
            return None;
        },
    };
    let p12 = match match_lit(v, p11, "}") {
        Some(j) => j,
        None => {
            proof {
                assert forall|mv: MetaView| !meta_at(v@, mv) by {
                    if meta_at(v@, mv) {
                        lemma_meta_decompose(v@, mv);
                    }
                }
            }
            return None;
        },
    };
    if p12 != v.len() {
        proof {
            assert forall|mv: MetaView| !meta_at(v@, mv) by {
                if meta_at(v@, mv) {
                    lemma_meta_decompose(v@, mv);
                }
            }
        }
        return None;
    }
    let meta = CacheMetadata { fetched_at, etag, last_modified, owner, repo, branch };
    proof {
        lemma_join_at(v@, 0, p0 as int, p1 as int, "{\"fetched_at\":"@, dec_digits(
            fetched_at as nat,
        ));
        lemma_join_at(v@, 0, p1 as int, p2 as int, "{\"fetched_at\":"@ + dec_digits(
            fetched_at as nat,
        ), ",\"etag\":"@);
        lemma_join_at(v@, 0, p2 as int, p3 as int, "{\"fetched_at\":"@ + dec_digits(
            fetched_at as nat,
        ) + ",\"etag\":"@, opt_str_json(meta@.etag));
        lemma_join_at(v@, 0, p3 as int, p4 as int, "{\"fetched_at\":"@ + dec_digits(
            fetched_at as nat,
        ) + ",\"etag\":"@ + opt_str_json(meta@.etag), ",\"last_modified\":"@);
        lemma_join_at(v@, 0, p4 as int, p5 as int, "{\"fetched_at\":"@ + dec_digits(
            fetched_at as nat,
        ) + ",\"etag\":"@ + opt_str_json(meta@.etag) + ",\"last_modified\":"@, opt_str_json(
            meta@.last_modified,
        ));
        lemma_join_at(v@, 0, p5 as int, p6 as int, "{\"fetched_at\":"@ + dec_digits(
            fetched_at as nat,
        ) + ",\"etag\":"@ + opt_str_json(meta@.etag) + ",\"last_modified\":"@ + opt_str_json(
            meta@.last_modified,
        ), ",\"owner\":"@);
        lemma_join_at(v@, 0, p6 as int, p7 as int, "{\"fetched_at\":"@ + dec_digits(
            fetched_at as nat,
        ) + ",\"etag\":"@ + opt_str_json(meta@.etag) + ",\"last_modified\":"@ + opt_str_json(
            meta@.last_modified,
        ) + ",\"owner\":"@, quoted(owner@));
        lemma_join_at(v@, 0, p7 as int, p8 as int, "{\"fetched_at\":"@ + dec_digits(
            fetched_at as nat,
        ) + ",\"etag\":"@ + opt_str_json(meta@.etag) + ",\"last_modified\":"@ + opt_str_json(
            meta@.last_modified,
        ) + ",\"owner\":"@ + quoted(owner@), ",\"repo\":"@);
        lemma_join_at(v@, 0, p8 as int, p9 as int, "{\"fetched_at\":"@ + dec_digits(
            fetched_at as nat,
        ) + ",\"etag\":"@ + opt_str_json(meta@.etag) + ",\"last_modified\":"@ + opt_str_json(
            meta@.last_modified,
        ) + ",\"owner\":"@ + quoted(owner@) + ",\"repo\":"@, quoted(repo@));
        lemma_join_at(v@, 0, p9 as int, p10 as int, "{\"fetched_at\":"@ + dec_digits(
            fetched_at as nat,
        ) + ",\"etag\":"@ + opt_str_json(meta@.etag) + ",\"last_modified\":"@ + opt_str_json(
            meta@.last_modified,
        ) + ",\"owner\":"@ + quoted(owner@) + ",\"repo\":"@ + quoted(repo@), ",\"branch\":"@);
        lemma_join_at(v@, 0, p10 as int, p11 as int, "{\"fetched_at\":"@ + dec_digits(
            fetched_at as nat,
        ) + ",\"etag\":"@ + opt_str_json(meta@.etag) + ",\"last_modified\":"@ + opt_str_json(
            meta@.last_modified,
        ) + ",\"owner\":"@ + quoted(owner@) + ",\"repo\":"@ + quoted(repo@)
            + ",\"branch\":"@, quoted(branch@));
        lemma_join_at(v@, 0, p11 as int, p12 as int, "{\"fetched_at\":"@ + dec_digits(
            fetched_at as nat,
        ) + ",\"etag\":"@ + opt_str_json(meta@.etag) + ",\"last_modified\":"@ + opt_str_json(
            meta@.last_modified,
        ) + ",\"owner\":"@ + quoted(owner@) + ",\"repo\":"@ + quoted(repo@)
            + ",\"branch\":"@ + quoted(branch@), "}"@);
        assert(v@.subrange(0, p12 as int) =~= v@);
        assert(v@ == meta_json(meta@));
        assert forall|mv: MetaView| meta_at(v@, mv) implies meta@ == mv by {
            lemma_meta_decompose(v@, mv);
        }
    }
    Some(meta)
}

/// Decode a persisted node list. A value is returned exactly when the text
/// is the canonical encoding of some list, and it is that list; corrupted
/// or foreign content is rejected.
pub fn decode_nodes(content: &str) -> (r: Option<Vec<RepoNode>>)
    ensures
        match r {
            Some(nodes) => content@ == nodes_json(views_of(nodes@)),
            None => true,
        },
        forall|nv: Seq<NodeView>|
            content@ == nodes_json(nv) ==> (r matches Some(nodes) && views_of(nodes@) == nv),
{
    let v = str_to_chars(content);
    parse_nodes_raw(&v)
}

/// Decode a persisted metadata record. A value is returned exactly when
/// the text is the canonical encoding of some record, and it is that
/// record.
pub fn decode_meta(content: &str) -> (r: Option<CacheMetadata>)
    ensures
        match r {
            Some(m) => content@ == meta_json(m@),
            None => true,
        },
        forall|mv: MetaView| content@ == meta_json(mv) ==> (r matches Some(m) && m@ == mv),
{
    let v = str_to_chars(content);
    let r = parse_meta_raw(&v);
    proof {
        assert forall|mv: MetaView|
            content@ == meta_json(mv) implies (r matches Some(m) && m@ == mv) by {
            assert(meta_at(v@, mv));
        }
    }
    r
}

} // verus!
