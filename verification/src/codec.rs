//! Persistence of the registry as a JSON document
//! `{"instances":{<name>:{"folder_name":<str>,"smapi_path":<str|null>},...},"smapi_path":<str>}`
//! with the entries in their stored (lexical) order, `"` and `\`
//! escaped with a backslash.  The parser accepts exactly the documents
//! the serializer writes, and parsing a saved registry gives the
//! registry back.

use vstd::prelude::*;
use crate::registry::{Manager, ManagerV, Instance, InstanceV, sorted_entries};
use crate::lex::{lex_lt, str_lex_lt, lemma_lex_trans};
use crate::strutil::{chars_of, string_of};

verus! {

/// The escaping of one character inside a quoted string.
pub open spec fn esc1(c: char) -> Seq<char> {
    if c == '"' || c == '\\' {
        seq!['\\', c]
    } else {
        seq![c]
    }
}

/// The escaping of a whole string body.
pub open spec fn esc(s: Seq<char>) -> Seq<char>
    decreases s.len(),
{
    if s.len() == 0 {
        Seq::empty()
    } else {
        esc1(s[0]) + esc(s.drop_first())
    }
}

/// A quoted, escaped string.
pub open spec fn jstr(s: Seq<char>) -> Seq<char> {
    seq!['"'] + esc(s) + seq!['"']
}

pub open spec fn lit_obj_open() -> Seq<char> {
    seq!['{', '"', 'i', 'n', 's', 't', 'a', 'n', 'c', 'e', 's', '"', ':', '{']
}

pub open spec fn lit_folder() -> Seq<char> {
    seq!['{', '"', 'f', 'o', 'l', 'd', 'e', 'r', '_', 'n', 'a', 'm', 'e', '"', ':']
}

pub open spec fn lit_smapi() -> Seq<char> {
    seq![',', '"', 's', 'm', 'a', 'p', 'i', '_', 'p', 'a', 't', 'h', '"', ':']
}

pub open spec fn lit_null() -> Seq<char> {
    seq!['n', 'u', 'l', 'l']
}

pub open spec fn lit_tail() -> Seq<char> {
    seq!['}', ',', '"', 's', 'm', 'a', 'p', 'i', '_', 'p', 'a', 't', 'h', '"', ':']
}

/// The serialized form of one instance.
pub open spec fn ser_inst(v: InstanceV) -> Seq<char> {
    lit_folder() + jstr(v.folder_name) + lit_smapi() + (match v.smapi_path {
        Some(p) => jstr(p),
        None => lit_null(),
    }) + seq!['}']
}

/// The serialized form of one named entry.
pub open spec fn ser_entry(e: (Seq<char>, InstanceV)) -> Seq<char> {
    jstr(e.0) + seq![':'] + ser_inst(e.1)
}

/// The serialized forms of the entries, comma-separated.
pub open spec fn ser_entries(es: Seq<(Seq<char>, InstanceV)>) -> Seq<char>
    decreases es.len(),
{
    if es.len() == 0 {
        Seq::empty()
    } else if es.len() == 1 {
        ser_entry(es[0])
    } else {
        ser_entry(es[0]) + seq![','] + ser_entries(es.drop_first())
    }
}

/// The serialized form of the whole registry.
pub open spec fn ser_manager(m: ManagerV) -> Seq<char> {
    lit_obj_open() + ser_entries(m.entries) + lit_tail() + jstr(m.smapi_path) + seq!['}']
}

proof fn lemma_esc_push(s: Seq<char>, c: char)
    ensures
        esc(s.push(c)) == esc(s) + esc1(c),
    decreases s.len(),
{
    if s.len() == 0 {
        assert(s.push(c)[0] == c);
        assert(s.push(c).drop_first() =~= Seq::<char>::empty());
        assert(esc(s.push(c)) == esc1(c) + esc(Seq::<char>::empty()));
        assert(esc1(c) + Seq::<char>::empty() =~= esc1(c));
        assert(esc(s) + esc1(c) =~= esc1(c));
    } else {
        assert(s.push(c)[0] == s[0]);
        assert(s.push(c).drop_first() =~= s.drop_first().push(c));
        lemma_esc_push(s.drop_first(), c);
        assert(esc(s.push(c)) == esc1(s[0]) + (esc(s.drop_first()) + esc1(c)));
        assert(esc1(s[0]) + (esc(s.drop_first()) + esc1(c)) =~= esc(s) + esc1(c));
    }
}

proof fn lemma_ser_entries_push(es: Seq<(Seq<char>, InstanceV)>, e: (Seq<char>, InstanceV))
    ensures
        es.len() == 0 ==> ser_entries(es.push(e)) == ser_entry(e),
        es.len() > 0 ==> ser_entries(es.push(e)) == ser_entries(es) + seq![','] + ser_entry(e),
    decreases es.len(),
{
    if es.len() == 0 {
        assert(es.push(e)[0] == e);
    } else {
        assert(es.push(e).drop_first() =~= es.drop_first().push(e));
        lemma_ser_entries_push(es.drop_first(), e);
        assert(ser_entries(es.push(e)) =~= ser_entries(es) + seq![','] + ser_entry(e));
    }
}

/// Appends the escaped body of `s`.
fn push_escaped(out: &mut Vec<char>, s: &str)
    ensures
        final(out)@ == old(out)@ + esc(s@),
{
    let v = chars_of(s);
    let mut i: usize = 0;
    proof {
        assert(s@.take(0) =~= Seq::<char>::empty());
        assert(out@ + esc(s@.take(0)) =~= out@);
    }
    while i < v.len()
        invariant
            i <= v@.len(),
            v@ == s@,
            out@ == old(out)@ + esc(s@.take(i as int)),
        decreases v@.len() - i,
    {
        let c = v[i];
        proof {
            assert(s@.take(i as int).push(c) =~= s@.take(i + 1 as int));
            lemma_esc_push(s@.take(i as int), c);
        }
        if c == '"' || c == '\\' {
            out.push('\\');
            out.push(c);
            proof {
                assert(old(out)@ + esc(s@.take(i as int)) + seq!['\\', c] =~= old(out)@ + esc(
                    s@.take(i + 1 as int),
                ));
            }
        } else {
            out.push(c);
            proof {
                assert(old(out)@ + esc(s@.take(i as int)) + seq![c] =~= old(out)@ + esc(
                    s@.take(i + 1 as int),
                ));
            }
        }
        i += 1;
    }
    proof {
        assert(s@.take(s@.len() as int) =~= s@);
    }
}

/// Appends `s` as a quoted, escaped string.
fn push_jstr(out: &mut Vec<char>, s: &str)
    ensures
        final(out)@ == old(out)@ + jstr(s@),
{
    out.push('"');
    push_escaped(out, s);
    out.push('"');
    proof {
        assert(final(out)@ =~= old(out)@ + jstr(s@));
    }
}

/// Appends the serialized form of one instance.
fn push_inst(out: &mut Vec<char>, inst: &Instance)
    ensures
        final(out)@ == old(out)@ + ser_inst(inst@),
{
    out.push('{');
    out.push('"');
    out.push('f');
    out.push('o');
    out.push('l');
    out.push('d');
    out.push('e');
    out.push('r');
    out.push('_');
    out.push('n');
    out.push('a');
    out.push('m');
    out.push('e');
    out.push('"');
    out.push(':');
    proof {
        assert(out@ =~= old(out)@ + lit_folder());
    }
    push_jstr(out, self_folder(inst));
    out.push(',');
    out.push('"');
    out.push('s');
    out.push('m');
    out.push('a');
    out.push('p');
    out.push('i');
    out.push('_');
    out.push('p');
    out.push('a');
    out.push('t');
    out.push('h');
    out.push('"');
    out.push(':');
    proof {
        assert(out@ =~= old(out)@ + lit_folder() + jstr(inst@.folder_name) + lit_smapi());
    }
    match &inst.smapi_path {
        Some(p) => {
            push_jstr(out, p.as_str());
        },
        None => {
            out.push('n');
            out.push('u');
            out.push('l');
            out.push('l');
        },
    }
    out.push('}');
    proof {
        assert(final(out)@ =~= old(out)@ + ser_inst(inst@));
    }
}

/// The folder name of an instance, as a string slice.
fn self_folder(inst: &Instance) -> (r: &str)
    ensures
        r@ == inst@.folder_name,
{
    inst.folder_name.as_str()
}

impl Manager {
    /// Serializes the registry; the result is exactly `ser_manager`
    /// of the registry's value.
    pub fn save(&self) -> (out: String)
        ensures
            out@ == ser_manager(self@),
    {
        let mut buf: Vec<char> = Vec::new();
        buf.push('{');
        buf.push('"');
        buf.push('i');
        buf.push('n');
        buf.push('s');
        buf.push('t');
        buf.push('a');
        buf.push('n');
        buf.push('c');
        buf.push('e');
        buf.push('s');
        buf.push('"');
        buf.push(':');
        buf.push('{');
        proof {
            assert(buf@ =~= lit_obj_open());
            assert(self@.entries.take(0) =~= Seq::<(Seq<char>, InstanceV)>::empty());
        }
        let mut i: usize = 0;
        while i < self.instances.len()
            invariant
                i <= self@.entries.len(),
                self@.entries.len() == self.instances@.len(),
                buf@ == lit_obj_open() + ser_entries(self@.entries.take(i as int)),
            decreases self@.entries.len() - i,
        {
            let ghost done = self@.entries.take(i as int);
            if i > 0 {
                buf.push(',');
            }
            push_jstr(&mut buf, self.instances[i].0.as_str());
            buf.push(':');
            push_inst(&mut buf, &self.instances[i].1);
            proof {
                let e = self@.entries[i as int];
                assert(e.0 == self.instances@[i as int].0@);
                assert(e.1 == self.instances@[i as int].1@);
                lemma_ser_entries_push(done, e);
                assert(done.push(e) =~= self@.entries.take(i + 1 as int));
                assert(buf@ =~= lit_obj_open() + ser_entries(self@.entries.take(i + 1 as int)));
            }
            i += 1;
        }
        proof {
            assert(self@.entries.take(self@.entries.len() as int) =~= self@.entries);
        }
        buf.push('}');
        buf.push(',');
        buf.push('"');
        buf.push('s');
        buf.push('m');
        buf.push('a');
        buf.push('p');
        buf.push('i');
        buf.push('_');
        buf.push('p');
        buf.push('a');
        buf.push('t');
        buf.push('h');
        buf.push('"');
        buf.push(':');
        proof {
            assert(buf@ =~= lit_obj_open() + ser_entries(self@.entries) + lit_tail());
        }
        push_jstr(&mut buf, self.smapi_path.as_str());
        buf.push('}');
        proof {
            assert(buf@ =~= ser_manager(self@));
        }
        string_of(&buf)
    }
}

} // verus!

verus! {

/// Whether the literal stands in `s` at position `i`.
pub open spec fn at_lit(s: Seq<char>, i: int, lit: Seq<char>) -> bool {
    0 <= i && i + lit.len() <= s.len() && s.subrange(i, i + lit.len()) == lit
}

/// Consumes the literal at `i`, if it stands there.
pub open spec fn p_lit(s: Seq<char>, i: int, lit: Seq<char>) -> Option<int> {
    if at_lit(s, i, lit) {
        Some(i + lit.len())
    } else {
        None
    }
}

/// Parses the body of a quoted string after the opening quote, up to
/// and including the closing quote, undoing the escaping.
pub open spec fn p_str_body(s: Seq<char>, i: int) -> Option<(Seq<char>, int)>
    decreases s.len() - i,
{
    if i < 0 || i >= s.len() {
        None
    } else if s[i] == '"' {
        Some((Seq::empty(), i + 1))
    } else if s[i] == '\\' {
        if i + 1 < s.len() && (s[i + 1] == '"' || s[i + 1] == '\\') {
            match p_str_body(s, i + 2) {
                Some(r) => Some((seq![s[i + 1]] + r.0, r.1)),
                None => None,
            }
        } else {
            None
        }
    } else {
        match p_str_body(s, i + 1) {
            Some(r) => Some((seq![s[i]] + r.0, r.1)),
            None => None,
        }
    }
}

/// Parses a quoted string.
pub open spec fn p_jstr(s: Seq<char>, i: int) -> Option<(Seq<char>, int)> {
    if 0 <= i && i < s.len() && s[i] == '"' {
        p_str_body(s, i + 1)
    } else {
        None
    }
}

/// Parses one instance object.
pub open spec fn p_inst(s: Seq<char>, i: int) -> Option<(InstanceV, int)> {
    match p_lit(s, i, lit_folder()) {
        Some(j) => match p_jstr(s, j) {
            Some(fr) => match p_lit(s, fr.1, lit_smapi()) {
                Some(l) => if at_lit(s, l, lit_null()) {
                    match p_lit(s, l + lit_null().len(), seq!['}']) {
                        Some(m) => Some(
                            (InstanceV { folder_name: fr.0, smapi_path: None }, m),
                        ),
                        None => None,
                    }
                } else {
                    match p_jstr(s, l) {
                        Some(pr) => match p_lit(s, pr.1, seq!['}']) {
                            Some(m) => Some(
                                (InstanceV { folder_name: fr.0, smapi_path: Some(pr.0) }, m),
                            ),
                            None => None,
                        },
                        None => None,
                    }
                },
                None => None,
            },
            None => None,
        },
        None => None,
    }
}

/// Parses one `name:instance` entry.
pub open spec fn p_entry(s: Seq<char>, i: int) -> Option<((Seq<char>, InstanceV), int)> {
    match p_jstr(s, i) {
        Some(nr) => match p_lit(s, nr.1, seq![':']) {
            Some(j) => match p_inst(s, j) {
                Some(ir) => Some(((nr.0, ir.0), ir.1)),
                None => None,
            },
            None => None,
        },
        None => None,
    }
}

/// Parses a non-empty comma-separated entry list, stopping in front
/// of the closing brace (which it does not consume).
pub open spec fn p_entry_list(s: Seq<char>, i: int) -> Option<(
    Seq<(Seq<char>, InstanceV)>,
    int,
)>
    decreases s.len() - i,
{
    if i < 0 {
        None
    } else {
        match p_entry(s, i) {
            Some(er) => {
                let j = er.1;
                if i < j && j < s.len() {
                    if s[j] == ',' {
                        match p_entry_list(s, j + 1) {
                            Some(rr) => Some((seq![er.0] + rr.0, rr.1)),
                            None => None,
                        }
                    } else if s[j] == '}' {
                        Some((seq![er.0], j))
                    } else {
                        None
                    }
                } else {
                    None
                }
            },
            None => None,
        }
    }
}

/// Parses a whole registry document; the entries must come sorted and
/// non-empty, and the document must end with the object.
pub open spec fn p_manager(s: Seq<char>) -> Option<ManagerV> {
    match p_lit(s, 0, lit_obj_open()) {
        Some(i) => match p_entry_list(s, i) {
            Some(er) => match p_lit(s, er.1, lit_tail()) {
                Some(j) => match p_jstr(s, j) {
                    Some(pr) => match p_lit(s, pr.1, seq!['}']) {
                        Some(end) => if end == s.len() && sorted_entries(er.0) {
                            Some(ManagerV { entries: er.0, smapi_path: pr.0 })
                        } else {
                            None
                        },
                        None => None,
                    },
                    None => None,
                },
                None => None,
            },
            None => None,
        },
        None => None,
    }
}

/// Splits a concatenation found inside `s` into its two parts.
proof fn lemma_cat_at(s: Seq<char>, i: int, a: Seq<char>, b: Seq<char>)
    requires
        0 <= i,
        i + a.len() + b.len() <= s.len(),
        s.subrange(i, i + a.len() + b.len()) == a + b,
    ensures
        s.subrange(i, i + a.len()) == a,
        s.subrange(i + a.len(), i + a.len() + b.len()) == b,
{
    let w = s.subrange(i, i + a.len() + b.len());
    assert forall|k: int| 0 <= k < a.len() implies s.subrange(i, i + a.len())[k] == a[k] by {
        assert(w[k] == (a + b)[k]);
    }
    assert(s.subrange(i, i + a.len()) =~= a);
    assert forall|k: int| 0 <= k < b.len() implies s.subrange(
        i + a.len(),
        i + a.len() + b.len(),
    )[k] == b[k] by {
        assert(w[a.len() + k] == (a + b)[a.len() + k]);
    }
    assert(s.subrange(i + a.len(), i + a.len() + b.len()) =~= b);
}

/// A serialized string body parses back to the string it came from.
proof fn lemma_p_str_body_ser(s: Seq<char>, i: int, c: Seq<char>)
    requires
        0 <= i,
        i + esc(c).len() + 1 <= s.len(),
        s.subrange(i, i + esc(c).len() + 1) == esc(c) + seq!['"'],
    ensures
        p_str_body(s, i) == Some((c, i + esc(c).len() + 1)),
    decreases c.len(),
{
    let w = s.subrange(i, i + esc(c).len() + 1);
    if c.len() == 0 {
        assert(esc(c).len() == 0);
        assert(s[i] == w[0]);
        assert(w[0] == (esc(c) + seq!['"'])[0]);
        assert(s[i] == '"');
        assert(c =~= Seq::<char>::empty());
    } else {
        let c0 = c[0];
        let rest = c.drop_first();
        assert(esc(c) == esc1(c0) + esc(rest));
        if c0 == '"' || c0 == '\\' {
            assert(esc1(c0) == seq!['\\', c0]);
            assert(esc(c)[0] == '\\' && esc(c)[1] == c0);
            assert(s[i] == w[0] && w[0] == esc(c)[0]);
            assert(s[i + 1] == w[1] && w[1] == esc(c)[1]);
            assert(esc(c) + seq!['"'] =~= seq!['\\', c0] + (esc(rest) + seq!['"']));
            lemma_cat_at(s, i, seq!['\\', c0], esc(rest) + seq!['"']);
            assert(s.subrange(i + 2, i + 2 + esc(rest).len() + 1) == esc(rest) + seq!['"']);
            lemma_p_str_body_ser(s, i + 2, rest);
            assert(seq![s[i + 1]] + rest =~= c);
        } else {
            assert(esc1(c0) == seq![c0]);
            assert(esc(c)[0] == c0);
            assert(s[i] == w[0] && w[0] == esc(c)[0]);
            assert(s[i] != '"' && s[i] != '\\');
            assert(esc(c) + seq!['"'] =~= seq![c0] + (esc(rest) + seq!['"']));
            lemma_cat_at(s, i, seq![c0], esc(rest) + seq!['"']);
            assert(s.subrange(i + 1, i + 1 + esc(rest).len() + 1) == esc(rest) + seq!['"']);
            lemma_p_str_body_ser(s, i + 1, rest);
            assert(seq![s[i]] + rest =~= c);
        }
    }
}

/// A serialized quoted string parses back to the string it came from.
proof fn lemma_p_jstr_ser(s: Seq<char>, i: int, c: Seq<char>)
    requires
        0 <= i,
        i + jstr(c).len() <= s.len(),
        s.subrange(i, i + jstr(c).len()) == jstr(c),
    ensures
        p_jstr(s, i) == Some((c, i + jstr(c).len())),
{
    let w = s.subrange(i, i + jstr(c).len());
    assert(jstr(c).len() == esc(c).len() + 2);
    assert(s[i] == w[0] && w[0] == jstr(c)[0]);
    assert(jstr(c)[0] == '"');
    assert(jstr(c) =~= seq!['"'] + (esc(c) + seq!['"']));
    lemma_cat_at(s, i, seq!['"'], esc(c) + seq!['"']);
    assert(s.subrange(i + 1, i + 1 + esc(c).len() + 1) == esc(c) + seq!['"']);
    lemma_p_str_body_ser(s, i + 1, c);
}

} // verus!

verus! {

/// A serialized instance parses back to the instance it came from.
proof fn lemma_p_inst_ser(s: Seq<char>, i: int, v: InstanceV)
    requires
        0 <= i,
        i + ser_inst(v).len() <= s.len(),
        s.subrange(i, i + ser_inst(v).len()) == ser_inst(v),
    ensures
        p_inst(s, i) == Some((v, i + ser_inst(v).len())),
{
    let fb = jstr(v.folder_name);
    let x = match v.smapi_path {
        Some(p) => jstr(p),
        None => lit_null(),
    };
    let e = seq!['}'];
    assert(ser_inst(v) =~= lit_folder() + (fb + (lit_smapi() + (x + e))));
    lemma_cat_at(s, i, lit_folder(), fb + (lit_smapi() + (x + e)));
    assert(at_lit(s, i, lit_folder()));
    let j0 = i + lit_folder().len();
    lemma_cat_at(s, j0, fb, lit_smapi() + (x + e));
    lemma_p_jstr_ser(s, j0, v.folder_name);
    let j1 = j0 + fb.len();
    lemma_cat_at(s, j1, lit_smapi(), x + e);
    assert(at_lit(s, j1, lit_smapi()));
    let l = j1 + lit_smapi().len();
    lemma_cat_at(s, l, x, e);
    let j2 = l + x.len();
    assert(s.subrange(j2, j2 + 1) == e);
    assert(s[j2] == e[0] && e[0] == '}');
    assert(at_lit(s, j2, seq!['}'])) by {
        assert(s.subrange(j2, j2 + 1) =~= seq![s[j2]]);
    }
    match v.smapi_path {
        Some(p) => {
            assert(s.subrange(l, l + x.len()) == jstr(p));
            assert(s[l] == jstr(p)[0] && jstr(p)[0] == '"');
            assert(!at_lit(s, l, lit_null())) by {
                if at_lit(s, l, lit_null()) {
                    assert(s[l] == s.subrange(l, l + 4)[0]);
                    assert(s[l] == 'n');
                }
            }
            lemma_p_jstr_ser(s, l, p);
            assert(p_inst(s, i) == Some((InstanceV { folder_name: v.folder_name, smapi_path: Some(p) }, i + ser_inst(v).len())));
            assert((InstanceV { folder_name: v.folder_name, smapi_path: Some(p) }) =~= v);
        },
        None => {
            assert(at_lit(s, l, lit_null()));
            assert((InstanceV { folder_name: v.folder_name, smapi_path: None }) =~= v);
        },
    }
}

/// A serialized entry parses back to the entry it came from.
proof fn lemma_p_entry_ser(s: Seq<char>, i: int, entry: (Seq<char>, InstanceV))
    requires
        0 <= i,
        i + ser_entry(entry).len() <= s.len(),
        s.subrange(i, i + ser_entry(entry).len()) == ser_entry(entry),
    ensures
        p_entry(s, i) == Some((entry, i + ser_entry(entry).len())),
        ser_entry(entry).len() > 0,
{
    let nb = jstr(entry.0);
    let ib = ser_inst(entry.1);
    assert(ser_entry(entry) =~= nb + (seq![':'] + ib));
    lemma_cat_at(s, i, nb, seq![':'] + ib);
    lemma_p_jstr_ser(s, i, entry.0);
    let j0 = i + nb.len();
    lemma_cat_at(s, j0, seq![':'], ib);
    assert(s.subrange(j0, j0 + 1) == seq![':']);
    assert(s[j0] == seq![':'][0]);
    assert(at_lit(s, j0, seq![':'])) by {
        assert(s.subrange(j0, j0 + 1) =~= seq![s[j0]]);
    }
    lemma_p_inst_ser(s, j0 + 1, entry.1);
    assert(p_entry(s, i) == Some(((entry.0, entry.1), i + ser_entry(entry).len())));
    assert((entry.0, entry.1) == entry);
}

/// A serialized entry list followed by a closing brace parses back to
/// the entries it came from, stopping at the brace.
proof fn lemma_p_entry_list_ser(s: Seq<char>, i: int, es: Seq<(Seq<char>, InstanceV)>)
    requires
        0 <= i,
        es.len() >= 1,
        i + ser_entries(es).len() < s.len(),
        s.subrange(i, i + ser_entries(es).len()) == ser_entries(es),
        s[i + ser_entries(es).len()] == '}',
    ensures
        p_entry_list(s, i) == Some((es, i + ser_entries(es).len())),
    decreases es.len(),
{
    if es.len() == 1 {
        assert(ser_entries(es) == ser_entry(es[0]));
        lemma_p_entry_ser(s, i, es[0]);
        let j = i + ser_entry(es[0]).len();
        assert(s[j] == '}');
        assert(seq![es[0]] =~= es);
    } else {
        let tail = es.drop_first();
        let eb = ser_entry(es[0]);
        let tb = ser_entries(tail);
        assert(ser_entries(es) == eb + seq![','] + tb);
        assert(ser_entries(es) =~= eb + (seq![','] + tb));
        lemma_cat_at(s, i, eb, seq![','] + tb);
        lemma_p_entry_ser(s, i, es[0]);
        let j = i + eb.len();
        lemma_cat_at(s, j, seq![','], tb);
        assert(s.subrange(j, j + 1) == seq![',']);
        assert(s[j] == seq![','][0]);
        assert(s[j] == ',');
        lemma_p_entry_list_ser(s, j + 1, tail);
        assert(p_entry_list(s, i) == Some((seq![es[0]] + tail, i + ser_entries(es).len())));
        assert(seq![es[0]] + tail =~= es);
    }
}

/// The persistence round trip: parsing a saved registry document
/// yields exactly the registry it was saved from, for every
/// well-formed, non-empty registry value.
pub proof fn lemma_load_of_save(m: ManagerV)
    requires
        m.wf(),
        m.entries.len() >= 1,
    ensures
        p_manager(ser_manager(m)) == Some(m),
{
    let s = ser_manager(m);
    let eb = ser_entries(m.entries);
    let jb = jstr(m.smapi_path);
    let end = seq!['}'];
    assert(s.subrange(0, s.len() as int) =~= s);
    lemma_cat_at(s, 0, lit_obj_open() + eb + lit_tail() + jb, end);
    lemma_cat_at(s, 0, lit_obj_open() + eb + lit_tail(), jb);
    lemma_cat_at(s, 0, lit_obj_open() + eb, lit_tail());
    lemma_cat_at(s, 0, lit_obj_open(), eb);
    assert(at_lit(s, 0, lit_obj_open()));
    let i0 = lit_obj_open().len() as int;
    let i1 = i0 + eb.len();
    assert(at_lit(s, i1, lit_tail()));
    assert(s[i1] == s.subrange(i1, i1 + lit_tail().len())[0]);
    assert(s[i1] == '}');
    lemma_p_entry_list_ser(s, i0, m.entries);
    let i2 = i1 + lit_tail().len();
    lemma_p_jstr_ser(s, i2, m.smapi_path);
    let i3 = i2 + jb.len();
    assert(s.subrange(i3, i3 + 1) == end);
    assert(s[i3] == end[0] && end[0] == '}');
    assert(at_lit(s, i3, seq!['}'])) by {
        assert(s.subrange(i3, i3 + 1) =~= seq![s[i3]]);
    }
    assert(i3 + 1 == s.len());
    assert(p_manager(s) == Some(ManagerV { entries: m.entries, smapi_path: m.smapi_path }));
    assert((ManagerV { entries: m.entries, smapi_path: m.smapi_path }) =~= m);
}

} // verus!

verus! {

/// The load error: the text is not a registry document.
#[derive(Clone, Copy, PartialEq, Eq, Structural, Debug)]
pub struct ConfigParseError;

/// Whether the literal stands at `i` in `v`.
fn e_match(v: &Vec<char>, i: usize, lit: &Vec<char>) -> (r: bool)
    ensures
        r == at_lit(v@, i as int, lit@),
{
    let n = v.len();
    if lit.len() > n || i > n - lit.len() {
        return false;
    }
    let mut k: usize = 0;
    while k < lit.len()
        invariant
            k <= lit@.len(),
            n == v@.len(),
            i + lit@.len() <= n,
            forall|t: int| 0 <= t < k ==> v@[i + t] == #[trigger] lit@[t],
        decreases lit@.len() - k,
    {
        if v[i + k] != lit[k] {
            proof {
                if at_lit(v@, i as int, lit@) {
                    assert(v@.subrange(i as int, i + lit@.len() as int)[k as int] == lit@[
                    k as int]);
                }
            }
            return false;
        }
        k += 1;
    }
    proof {
        assert(v@.subrange(i as int, i + lit@.len() as int) =~= lit@);
    }
    true
}

/// Whether the single character stands at `i` in `v`.
fn e_char(v: &Vec<char>, i: usize, c: char) -> (r: bool)
    ensures
        r == at_lit(v@, i as int, seq![c]),
{
    if i < v.len() && v[i] == c {
        proof {
            assert(v@.subrange(i as int, i + 1 as int) =~= seq![c]);
        }
        true
    } else {
        proof {
            if at_lit(v@, i as int, seq![c]) {
                assert(v@.subrange(i as int, i + 1 as int)[0] == c);
            }
        }
        false
    }
}

fn lit_obj_open_vec() -> (r: Vec<char>)
    ensures
        r@ == lit_obj_open(),
{
    let mut r: Vec<char> = Vec::new();
    r.push('{');
    r.push('"');
    r.push('i');
    r.push('n');
    r.push('s');
    r.push('t');
    r.push('a');
    r.push('n');
    r.push('c');
    r.push('e');
    r.push('s');
    r.push('"');
    r.push(':');
    r.push('{');
    proof {
        assert(r@ =~= lit_obj_open());
    }
    r
}

fn lit_folder_vec() -> (r: Vec<char>)
    ensures
        r@ == lit_folder(),
{
    let mut r: Vec<char> = Vec::new();
    r.push('{');
    r.push('"');
    r.push('f');
    r.push('o');
    r.push('l');
    r.push('d');
    r.push('e');
    r.push('r');
    r.push('_');
    r.push('n');
    r.push('a');
    r.push('m');
    r.push('e');
    r.push('"');
    r.push(':');
    proof {
        assert(r@ =~= lit_folder());
    }
    r
}

fn lit_smapi_vec() -> (r: Vec<char>)
    ensures
        r@ == lit_smapi(),
{
    let mut r: Vec<char> = Vec::new();
    r.push(',');
    r.push('"');
    r.push('s');
    r.push('m');
    r.push('a');
    r.push('p');
    r.push('i');
    r.push('_');
    r.push('p');
    r.push('a');
    r.push('t');
    r.push('h');
    r.push('"');
    r.push(':');
    proof {
        assert(r@ =~= lit_smapi());
    }
    r
}

fn lit_null_vec() -> (r: Vec<char>)
    ensures
        r@ == lit_null(),
{
    let mut r: Vec<char> = Vec::new();
    r.push('n');
    r.push('u');
    r.push('l');
    r.push('l');
    proof {
        assert(r@ =~= lit_null());
    }
    r
}

fn lit_tail_vec() -> (r: Vec<char>)
    ensures
        r@ == lit_tail(),
{
    let mut r: Vec<char> = Vec::new();
    r.push('}');
    r.push(',');
    r.push('"');
    r.push('s');
    r.push('m');
    r.push('a');
    r.push('p');
    r.push('i');
    r.push('_');
    r.push('p');
    r.push('a');
    r.push('t');
    r.push('h');
    r.push('"');
    r.push(':');
    proof {
        assert(r@ =~= lit_tail());
    }
    r
}

/// Parses a string body after its opening quote.
fn e_str_body(v: &Vec<char>, i: usize) -> (r: Option<(Vec<char>, usize)>)
    ensures
        match r {
            Some(p) => p.1 <= v@.len() && p_str_body(v@, i as int) == Some((p.0@, p.1 as int)),
            None => p_str_body(v@, i as int) is None,
        },
    decreases v@.len() - i,
{
    if i >= v.len() {
        return None;
    }
    let c = v[i];
    if c == '"' {
        let empty: Vec<char> = Vec::new();
        return Some((empty, i + 1));
    }
    if c == '\\' {
        if i + 1 < v.len() && (v[i + 1] == '"' || v[i + 1] == '\\') {
            let c1 = v[i + 1];
            match e_str_body(v, i + 2) {
                Some((mut rest, j)) => {
                    let ghost restv = rest@;
                    rest.insert(0, c1);
                    proof {
                        assert(rest@ =~= seq![v@[i + 1 as int]] + restv);
                    }
                    Some((rest, j))
                },
                None => None,
            }
        } else {
            None
        }
    } else {
        match e_str_body(v, i + 1) {
            Some((mut rest, j)) => {
                let ghost restv = rest@;
                rest.insert(0, c);
                proof {
                    assert(rest@ =~= seq![v@[i as int]] + restv);
                }
                Some((rest, j))
            },
            None => None,
        }
    }
}

/// Parses a quoted string.
fn e_jstr(v: &Vec<char>, i: usize) -> (r: Option<(String, usize)>)
    ensures
        match r {
            Some(p) => p.1 <= v@.len() && p_jstr(v@, i as int) == Some((p.0@, p.1 as int)),
            None => p_jstr(v@, i as int) is None,
        },
{
    if i < v.len() && v[i] == '"' {
        match e_str_body(v, i + 1) {
            Some((cs, j)) => Some((string_of(&cs), j)),
            None => None,
        }
    } else {
        None
    }
}

/// Parses one instance object.
fn e_inst(v: &Vec<char>, i: usize) -> (r: Option<(Instance, usize)>)
    ensures
        match r {
            Some(p) => p.1 <= v@.len() && p_inst(v@, i as int) == Some((p.0@, p.1 as int)),
            None => p_inst(v@, i as int) is None,
        },
{
    let n = v.len();
    proof {
        assert(n == v@.len());
    }
    let litf = lit_folder_vec();
    if !e_match(v, i, &litf) {
        return None;
    }
    let j = i + litf.len();
    match e_jstr(v, j) {
        None => None,
        Some((fname, k)) => {
            let lits = lit_smapi_vec();
            if !e_match(v, k, &lits) {
                return None;
            }
            let l = k + lits.len();
            let litn = lit_null_vec();
            if e_match(v, l, &litn) {
                let m = l + litn.len();
                if e_char(v, m, '}') {
                    Some((Instance::new(fname, None), m + 1))
                } else {
                    None
                }
            } else {
                match e_jstr(v, l) {
                    Some((pname, m2)) => {
                        if e_char(v, m2, '}') {
                            Some((Instance::new(fname, Some(pname)), m2 + 1))
                        } else {
                            None
                        }
                    },
                    None => None,
                }
            }
        },
    }
}

/// Parses one `name:instance` entry.
fn e_entry(v: &Vec<char>, i: usize) -> (r: Option<((String, Instance), usize)>)
    ensures
        match r {
            Some(p) => p.1 <= v@.len() && p_entry(v@, i as int) == Some(
                ((p.0.0@, p.0.1@), p.1 as int),
            ),
            None => p_entry(v@, i as int) is None,
        },
{
    let n = v.len();
    proof {
        assert(n == v@.len());
    }
    match e_jstr(v, i) {
        Some((name, j)) => {
            if e_char(v, j, ':') {
                match e_inst(v, j + 1) {
                    Some((inst, k)) => Some(((name, inst), k)),
                    None => None,
                }
            } else {
                None
            }
        },
        None => None,
    }
}

/// Parses a non-empty entry list, stopping at the closing brace.
fn e_entry_list(v: &Vec<char>, i: usize) -> (r: Option<(Vec<(String, Instance)>, usize)>)
    ensures
        match r {
            Some(p) => p.1 <= v@.len() && p.0@.len() >= 1 && p_entry_list(v@, i as int) == Some(
                (crate::registry::entries_view(p.0@), p.1 as int),
            ),
            None => p_entry_list(v@, i as int) is None,
        },
    decreases v@.len() - i,
{
    match e_entry(v, i) {
        None => None,
        Some((e, j)) => {
            if !(i < j && j < v.len()) {
                return None;
            }
            if v[j] == ',' {
                match e_entry_list(v, j + 1) {
                    Some((mut rest, k)) => {
                        let ghost restv = rest@;
                        let ghost ev = (e.0@, e.1@);
                        rest.insert(0, e);
                        proof {
                            assert(crate::registry::entries_view(rest@) =~= seq![ev]
                                + crate::registry::entries_view(restv));
                        }
                        Some((rest, k))
                    },
                    None => None,
                }
            } else if v[j] == '}' {
                let ghost ev = (e.0@, e.1@);
                let mut one: Vec<(String, Instance)> = Vec::new();
                one.push(e);
                proof {
                    assert(crate::registry::entries_view(one@) =~= seq![ev]);
                }
                Some((one, j))
            } else {
                None
            }
        },
    }
}

/// The lexical chain along adjacent entries reaches every later one.
proof fn lemma_chain(es: Seq<(Seq<char>, InstanceV)>, i: int, j: int)
    requires
        forall|t: int| 0 <= t < es.len() - 1 ==> lex_lt(#[trigger] es[t].0, es[t + 1].0),
        0 <= i < j < es.len(),
    ensures
        lex_lt(es[i].0, es[j].0),
    decreases j - i,
{
    if j == i + 1 {
        assert(lex_lt(es[i].0, es[i + 1].0));
    } else {
        lemma_chain(es, i, j - 1);
        assert(lex_lt(es[j - 1].0, es[j].0));
        lemma_lex_trans(es[i].0, es[j - 1].0, es[j].0);
    }
}

/// Whether the names of a raw entry list stand in strictly
/// increasing lexical order.
fn entries_sorted(entries: &Vec<(String, Instance)>) -> (r: bool)
    ensures
        r == sorted_entries(crate::registry::entries_view(entries@)),
{
    let ghost ev = crate::registry::entries_view(entries@);
    if entries.len() == 0 {
        return true;
    }
    let mut k: usize = 1;
    while k < entries.len()
        invariant
            1 <= k,
            entries@.len() >= 1,
            k <= entries@.len(),
            ev == crate::registry::entries_view(entries@),
            ev.len() == entries@.len(),
            forall|t: int| 1 <= t < k ==> lex_lt(#[trigger] ev[t - 1].0, ev[t].0),
        decreases entries@.len() - k,
    {
        if !str_lex_lt(entries[k - 1].0.as_str(), entries[k].0.as_str()) {
            proof {
                assert(ev[k - 1 as int].0 == entries@[k - 1 as int].0@);
                assert(ev[k as int].0 == entries@[k as int].0@);
                assert(!sorted_entries(ev));
            }
            return false;
        }
        proof {
            assert(ev[k - 1 as int].0 == entries@[k - 1 as int].0@);
            assert(ev[k as int].0 == entries@[k as int].0@);
        }
        k += 1;
    }
    proof {
        assert forall|t: int| 0 <= t < ev.len() - 1 implies lex_lt(#[trigger] ev[t].0, ev[t + 1].0) by {
            assert(1 <= t + 1 < ev.len());
            assert(lex_lt(ev[t + 1 - 1].0, ev[t + 1].0));
        }
        assert forall|a: int, b: int| 0 <= a < b < ev.len() implies lex_lt(ev[a].0, ev[b].0) by {
            lemma_chain(ev, a, b);
        }
    }
    true
}

impl Manager {
    /// Parses a registry document, accepting exactly the documents
    /// `save` writes: success if and only if the text is the
    /// serialization of a well-formed, non-empty registry, which is
    /// then returned.
    pub fn load_config(text: &str) -> (r: Result<Manager, ConfigParseError>)
        ensures
            match r {
                Ok(m) => p_manager(text@) == Some(m@) && m@.wf() && m@.entries.len() >= 1,
                Err(_) => p_manager(text@) is None,
            },
    {
        let v = chars_of(text);
        let lito = lit_obj_open_vec();
        if !e_match(&v, 0, &lito) {
            return Err(ConfigParseError);
        }
        let i0 = lito.len();
        match e_entry_list(&v, i0) {
            None => Err(ConfigParseError),
            Some((entries, j)) => {
                let ghost ev = crate::registry::entries_view(entries@);
                if !entries_sorted(&entries) {
                    return Err(ConfigParseError);
                }
                let litt = lit_tail_vec();
                if !e_match(&v, j, &litt) {
                    return Err(ConfigParseError);
                }
                match e_jstr(&v, j + litt.len()) {
                    None => Err(ConfigParseError),
                    Some((sp, j2)) => {
                        if e_char(&v, j2, '}') && j2 + 1 == v.len() {
                            let m = Manager { instances: entries, smapi_path: sp };
                            proof {
                                assert(m@ =~= (ManagerV { entries: ev, smapi_path: sp@ }));
                            }
                            Ok(m)
                        } else {
                            Err(ConfigParseError)
                        }
                    },
                }
            },
        }
    }
}

} // verus!
