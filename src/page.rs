//! The listing page: escaping and placeholder substitution.
use vstd::prelude::*;
use vstd::string::StringSliceAdditionalSpecFns;
use crate::bytes::{matches_here, push_all};

verus! {

/// The HTML text that stands for byte `b`.
pub open spec fn escape_byte(b: u8) -> Seq<u8> {
    if b == 38 {
        "&amp;".spec_bytes()
    } else if b == 60 {
        "&lt;".spec_bytes()
    } else if b == 62 {
        "&gt;".spec_bytes()
    } else if b == 34 {
        "&quot;".spec_bytes()
    } else {
        seq![b]
    }
}

/// `s` with `&`, `<`, `>` and `"` written as HTML entities.
pub open spec fn escaped(s: Seq<u8>) -> Seq<u8>
    decreases s.len(),
{
    if s.len() == 0 {
        Seq::empty()
    } else {
        escaped(s.drop_last()) + escape_byte(s.last())
    }
}

/// `s` with every occurrence of `pat`, scanned left to right without overlap, replaced
/// by `with`.
pub open spec fn replaced(s: Seq<u8>, pat: Seq<u8>, with: Seq<u8>) -> Seq<u8>
    decreases s.len(),
{
    if pat.len() == 0 || s.len() < pat.len() {
        s
    } else if s.subrange(0, pat.len() as int) == pat {
        with + replaced(s.subrange(pat.len() as int, s.len() as int), pat, with)
    } else {
        seq![s[0]] + replaced(s.subrange(1, s.len() as int), pat, with)
    }
}

/// `s` with `&`, `<`, `>` and `"` written as HTML entities.
pub fn escape_html(s: &[u8]) -> (r: Vec<u8>)
    ensures
        r@ == escaped(s@),
{
    let mut out: Vec<u8> = Vec::new();
    let mut i: usize = 0;
    assert(s@.subrange(0, 0) =~= Seq::<u8>::empty());
    while i < s.len()
        invariant
            i <= s@.len(),
            out@ == escaped(s@.subrange(0, i as int)),
        decreases s@.len() - i,
    {
        assert(s@.subrange(0, i + 1).drop_last() =~= s@.subrange(0, i as int));
        let b = s[i];
        if b == 38 {
            push_all(&mut out, "&amp;".as_bytes());
        } else if b == 60 {
            push_all(&mut out, "&lt;".as_bytes());
        } else if b == 62 {
            push_all(&mut out, "&gt;".as_bytes());
        } else if b == 34 {
            push_all(&mut out, "&quot;".as_bytes());
        } else {
            let ghost before = out@;
            out.push(b);
            assert(out@ =~= before + seq![b]);
        }
        i = i + 1;
    }
    assert(s@.subrange(0, s@.len() as int) =~= s@);
    out
}

/// `template` with every `placeholder` replaced by the escaped `data`.
pub fn fill_template(template: &[u8], placeholder: &[u8], data: &[u8]) -> (r: Vec<u8>)
    requires
        placeholder@.len() > 0,
    ensures
        r@ == replaced(template@, placeholder@, escaped(data@)),
{
    let safe = escape_html(data);
    replace_all(template, placeholder, safe.as_slice())
}

/// `s` with every occurrence of `pat` replaced by `with`.
fn replace_all(s: &[u8], pat: &[u8], with: &[u8]) -> (r: Vec<u8>)
    requires
        pat@.len() > 0,
    ensures
        r@ == replaced(s@, pat@, with@),
{
    let n = s.len();
    let mut out: Vec<u8> = Vec::new();
    let mut i: usize = 0;
    assert(s@.subrange(0, n as int) =~= s@);
    while i < n
        invariant
            n == s@.len(),
            i <= n,
            pat@.len() > 0,
            out@ + replaced(s@.subrange(i as int, n as int), pat@, with@) == replaced(s@, pat@, with@),
        decreases n - i,
    {
        let ghost rest = s@.subrange(i as int, n as int);
        if matches_here(s, pat, i) {
            assert(rest.subrange(0, pat@.len() as int) =~= s@.subrange(i as int, i + pat@.len()));
            assert(rest.subrange(pat@.len() as int, rest.len() as int) =~= s@.subrange(
                i + pat@.len(),
                n as int,
            ));
            let ghost before = out@;
            push_all(&mut out, with);
            assert(before + (with@ + replaced(s@.subrange(i + pat@.len(), n as int), pat@, with@))
                =~= out@ + replaced(s@.subrange(i + pat@.len(), n as int), pat@, with@));
            i = i + pat.len();
        } else {
            proof {
                if rest.len() >= pat@.len() {
                    assert(rest.subrange(0, pat@.len() as int) =~= s@.subrange(i as int, i + pat@.len()));
                }
            }
            assert(rest.subrange(1, rest.len() as int) =~= s@.subrange(i + 1, n as int));
            let ghost before = out@;
            out.push(s[i]);
            assert(before + (seq![s@[i as int]] + replaced(s@.subrange(i + 1, n as int), pat@, with@))
                =~= out@ + replaced(s@.subrange(i + 1, n as int), pat@, with@));
            i = i + 1;
        }
    }
    assert(out@ + replaced(s@.subrange(n as int, n as int), pat@, with@) =~= out@);
    out
}

/// The names of a listing, one per line.
pub open spec fn joined(names: Seq<Seq<u8>>) -> Seq<u8>
    decreases names.len(),
{
    if names.len() == 0 {
        Seq::empty()
    } else if names.len() == 1 {
        names[0]
    } else {
        joined(names.drop_last()) + seq![10u8] + names.last()
    }
}

/// The names of a listing, one per line.
pub fn join_lines(names: &Vec<Vec<u8>>) -> (r: Vec<u8>)
    ensures
        r@ == joined(names@.map_values(|n: Vec<u8>| n@)),
{
    let ghost all = names@.map_values(|n: Vec<u8>| n@);
    let mut out: Vec<u8> = Vec::new();
    let mut i: usize = 0;
    while i < names.len()
        invariant
            i <= names@.len(),
            all == names@.map_values(|n: Vec<u8>| n@),
            out@ == joined(all.subrange(0, i as int)),
        decreases names@.len() - i,
    {
        assert(all.subrange(0, i + 1).drop_last() =~= all.subrange(0, i as int));
        if i > 0 {
            out.push(10u8);
        }
        push_all(&mut out, names[i].as_slice());
        if i == 0 {
            assert(out@ =~= all.subrange(0, 1)[0]);
        }
        i = i + 1;
    }
    assert(all.subrange(0, names@.len() as int) =~= all);
    out
}

/// The listing page built from `template`: the escaped file names, the name of the
/// opened file, and its content, each put in place of its placeholder.
pub open spec fn listing_page(
    template: Seq<u8>,
    names: Seq<Seq<u8>>,
    open_name: Seq<u8>,
    open_content: Seq<u8>,
) -> Seq<u8> {
    replaced(
        replaced(
            replaced(template, "{{NOMES_DOS_ARQUIVOS}}".spec_bytes(), escaped(joined(names))),
            "{{NOME_ARQUIVO_ABERTO}}".spec_bytes(),
            escaped(open_name),
        ),
        "{{CONTEUDO_ARQUIVO_ABERTO}}".spec_bytes(),
        escaped(open_content),
    )
}

/// Fills the listing template.
pub fn render_listing(template: &[u8], names: &Vec<Vec<u8>>, open_name: &[u8], open_content: &[u8]) -> (r: Vec<u8>)
    ensures
        r@ == listing_page(template@, names@.map_values(|n: Vec<u8>| n@), open_name@, open_content@),
{
    proof {
        reveal_strlit("{{NOMES_DOS_ARQUIVOS}}");
        reveal_strlit("{{NOME_ARQUIVO_ABERTO}}");
        reveal_strlit("{{CONTEUDO_ARQUIVO_ABERTO}}");
        vstd::string::is_ascii_spec_bytes("{{NOMES_DOS_ARQUIVOS}}");
        vstd::string::is_ascii_spec_bytes("{{NOME_ARQUIVO_ABERTO}}");
        vstd::string::is_ascii_spec_bytes("{{CONTEUDO_ARQUIVO_ABERTO}}");
    }
    let all = join_lines(names);
    let a = fill_template(template, "{{NOMES_DOS_ARQUIVOS}}".as_bytes(), all.as_slice());
    let b = fill_template(a.as_slice(), "{{NOME_ARQUIVO_ABERTO}}".as_bytes(), open_name);
    fill_template(b.as_slice(), "{{CONTEUDO_ARQUIVO_ABERTO}}".as_bytes(), open_content)
}

} // verus!
