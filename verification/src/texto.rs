//! Text as sequences of characters: the operations on strings that the query
//! engine is built from, each with its meaning stated over `Seq<char>`.

use vstd::prelude::*;

verus! {

/// Believed of `String::push`, not proved: the call appends the character
/// `c` at the end of the string and changes nothing else of it.
pub assume_specification[ String::push ](s: &mut String, c: char)
    ensures
        final(s)@ == old(s)@.push(c),
;

/// The upper-case form of a text under the Unicode case mapping: what
/// `str::to_uppercase` returns for it. The mapping is a fixed table that is
/// not written out here, so nothing is known of this value but that the same
/// text always gives the same one.
pub uninterp spec fn mayusculas(s: Seq<char>) -> Seq<char>;

/// Calls `str::to_uppercase`. Believed, not proved: the string that comes
/// back holds the upper-case form of `s`, which `mayusculas` names.
#[verifier::external_body]
pub(crate) fn pasar_a_mayusculas(s: &str) -> (r: String)
    ensures
        r@ == mayusculas(s@),
{
    s.to_uppercase()
}

/// The view of each element of `v`, in order.
pub open spec fn vistas<T: View>(v: Seq<T>) -> Seq<T::V> {
    Seq::new(v.len(), |i: int| v[i]@)
}

/// The characters of `s`, in order.
pub fn caracteres(s: &str) -> (v: Vec<char>)
    ensures
        v@ == s@,
{
    let mut v: Vec<char> = Vec::new();
    let it = s.chars();
    for c in iter: it
        invariant
            iter.seq() == s@,
            v@ == s@.take(iter.index() as int),
    {
        v.push(c);
    }
    v
}

/// The string made of the characters of `v`, in order.
pub fn cadena(v: &Vec<char>) -> (s: String)
    ensures
        s@ == v@,
{
    let mut s = String::new();
    let mut i: usize = 0;
    while i < v.len()
        invariant
            i <= v.len(),
            s@ == v@.take(i as int),
        decreases v.len() - i,
    {
        s.push(v[i]);
        i += 1;
    }
    s
}

/// The strings made of each element of `v`, in order.
pub fn cadenas(v: &Vec<Vec<char>>) -> (r: Vec<String>)
    ensures
        vistas(r@) == vistas(v@),
{
    let mut r: Vec<String> = Vec::new();
    let mut i: usize = 0;
    while i < v.len()
        invariant
            i <= v.len(),
            r.len() == i,
            forall|k: int| 0 <= k < i ==> (#[trigger] r[k])@ == v[k]@,
        decreases v.len() - i,
    {
        r.push(cadena(&v[i]));
        i += 1;
    }
    assert(vistas(r@) =~= vistas(v@));
    r
}

/// The characters of each string of `v`, in order.
pub fn textos(v: &Vec<String>) -> (r: Vec<Vec<char>>)
    ensures
        vistas(r@) == vistas(v@),
{
    let mut r: Vec<Vec<char>> = Vec::new();
    let mut i: usize = 0;
    while i < v.len()
        invariant
            i <= v.len(),
            r.len() == i,
            forall|k: int| 0 <= k < i ==> (#[trigger] r[k])@ == v[k]@,
        decreases v.len() - i,
    {
        r.push(caracteres(v[i].as_str()));
        i += 1;
    }
    assert(vistas(r@) =~= vistas(v@));
    r
}

/// A copy of the characters of `v` from position `desde` up to, not
/// including, position `hasta`.
pub fn subcadena(v: &Vec<char>, desde: usize, hasta: usize) -> (r: Vec<char>)
    requires
        desde <= hasta <= v.len(),
    ensures
        r@ == v@.subrange(desde as int, hasta as int),
{
    let mut r: Vec<char> = Vec::new();
    let mut i: usize = desde;
    while i < hasta
        invariant
            desde <= i <= hasta <= v.len(),
            r@ == v@.subrange(desde as int, i as int),
        decreases hasta - i,
    {
        r.push(v[i]);
        i += 1;
    }
    r
}

/// Whether two texts hold the same characters.
pub fn iguales(a: &Vec<char>, b: &Vec<char>) -> (r: bool)
    ensures
        r == (a@ == b@),
{
    if a.len() != b.len() {
        return false;
    }
    let mut i: usize = 0;
    while i < a.len()
        invariant
            i <= a.len(),
            a.len() == b.len(),
            a@.take(i as int) == b@.take(i as int),
        decreases a.len() - i,
    {
        if a[i] != b[i] {
            return false;
        }
        assert(a@.take(i + 1) =~= a@.take(i as int).push(a@[i as int]));
        assert(b@.take(i + 1) =~= b@.take(i as int).push(b@[i as int]));
        i += 1;
    }
    assert(a@ =~= a@.take(a.len() as int));
    assert(b@ =~= b@.take(b.len() as int));
    true
}

/// Whether `c` is white space: a character with the Unicode property
/// `White_Space`.
pub open spec fn es_espacio(c: char) -> bool {
    let n = c as u32;
    ||| 0x09 <= n <= 0x0D
    ||| n == 0x20
    ||| n == 0x85
    ||| n == 0xA0
    ||| n == 0x1680
    ||| 0x2000 <= n <= 0x200A
    ||| n == 0x2028
    ||| n == 0x2029
    ||| n == 0x202F
    ||| n == 0x205F
    ||| n == 0x3000
}

/// Decides `es_espacio`.
pub fn es_blanco(c: char) -> (r: bool)
    ensures
        r == es_espacio(c),
{
    let n: u32 = c as u32;
    (0x09 <= n && n <= 0x0D) || n == 0x20 || n == 0x85 || n == 0xA0 || n == 0x1680 || (0x2000 <= n
        && n <= 0x200A) || n == 0x2028 || n == 0x2029 || n == 0x202F || n == 0x205F || n == 0x3000
}

/// How many characters at the start of `s` satisfy `p` before the first one
/// that does not.
pub open spec fn largo_prefijo(s: Seq<char>, p: spec_fn(char) -> bool) -> nat
    decreases s.len(),
{
    if s.len() > 0 && p(s[0]) {
        1 + largo_prefijo(s.drop_first(), p)
    } else {
        0
    }
}

/// How many characters at the end of `s` satisfy `p` after the last one that
/// does not.
pub open spec fn largo_sufijo(s: Seq<char>, p: spec_fn(char) -> bool) -> nat
    decreases s.len(),
{
    if s.len() > 0 && p(s.last()) {
        1 + largo_sufijo(s.drop_last(), p)
    } else {
        0
    }
}

/// `largo_prefijo(s, p)` is the only `n` such that the first `n` characters
/// satisfy `p` and the one after them, if any, does not.
pub proof fn lema_largo_prefijo(s: Seq<char>, p: spec_fn(char) -> bool, n: int)
    requires
        0 <= n <= s.len(),
        forall|k: int| 0 <= k < n ==> p(#[trigger] s[k]),
        n == s.len() || !p(s[n]),
    ensures
        largo_prefijo(s, p) == n,
    decreases n,
{
    if n > 0 {
        lema_largo_prefijo(s.drop_first(), p, n - 1);
    }
}

/// `largo_sufijo(s, p)` is the only `n` such that the last `n` characters
/// satisfy `p` and the one before them, if any, does not.
pub proof fn lema_largo_sufijo(s: Seq<char>, p: spec_fn(char) -> bool, n: int)
    requires
        0 <= n <= s.len(),
        forall|k: int| s.len() - n <= k < s.len() ==> p(#[trigger] s[k]),
        n == s.len() || !p(s[s.len() - n - 1]),
    ensures
        largo_sufijo(s, p) == n,
    decreases n,
{
    if n > 0 {
        lema_largo_sufijo(s.drop_last(), p, n - 1);
    }
}

/// The prefix that `largo_prefijo` measures lies within `s`, satisfies `p`
/// throughout, and is followed by a character that does not.
pub proof fn lema_prefijo_acotado(s: Seq<char>, p: spec_fn(char) -> bool)
    ensures
        largo_prefijo(s, p) <= s.len(),
        forall|k: int| 0 <= k < largo_prefijo(s, p) ==> p(#[trigger] s[k]),
        largo_prefijo(s, p) < s.len() ==> !p(s[largo_prefijo(s, p) as int]),
    decreases s.len(),
{
    if s.len() > 0 && p(s[0]) {
        lema_prefijo_acotado(s.drop_first(), p);
        let n = largo_prefijo(s.drop_first(), p) as int;
        assert forall|k: int| 0 <= k < n + 1 implies p(#[trigger] s[k]) by {
            if k > 0 {
                assert(s[k] == s.drop_first()[k - 1]);
            }
        }
        if n + 1 < s.len() {
            assert(s[n + 1] == s.drop_first()[n]);
        }
    }
}

/// The predicate "is white space".
pub open spec fn blanco() -> spec_fn(char) -> bool {
    |c: char| es_espacio(c)
}

/// The predicate "is not white space".
pub open spec fn no_blanco() -> spec_fn(char) -> bool {
    |c: char| !es_espacio(c)
}

/// The predicate "differs from `sep`".
pub open spec fn distinto_de(sep: char) -> spec_fn(char) -> bool {
    |c: char| c != sep
}

/// `s` without the characters at its start and at its end that satisfy `p`.
pub open spec fn sin_extremos(s: Seq<char>, p: spec_fn(char) -> bool) -> Seq<char> {
    let t = s.skip(largo_prefijo(s, p) as int);
    t.take(t.len() - largo_sufijo(t, p))
}

/// `s` without the white space at its start and at its end.
pub open spec fn recortado(s: Seq<char>) -> Seq<char> {
    sin_extremos(s, blanco())
}

/// Removes the white space at both ends of `v`.
pub fn recortar(v: &Vec<char>) -> (r: Vec<char>)
    ensures
        r@ == recortado(v@),
{
    let n: usize = v.len();
    let mut a: usize = 0;
    while a < n && es_blanco(v[a])
        invariant
            a <= n == v.len(),
            forall|k: int| 0 <= k < a ==> es_espacio(#[trigger] v@[k]),
        decreases n - a,
    {
        a += 1;
    }
    let mut b: usize = n;
    while b > a && es_blanco(v[b - 1])
        invariant
            a <= b <= n == v.len(),
            forall|k: int| b <= k < n ==> es_espacio(#[trigger] v@[k]),
        decreases b,
    {
        b -= 1;
    }
    proof {
        lema_largo_prefijo(v@, blanco(), a as int);
        let t = v@.skip(a as int);
        lema_largo_sufijo(t, blanco(), n - b);
        assert(t.take(t.len() - (n - b)) =~= v@.subrange(a as int, b as int));
    }
    subcadena(v, a, b)
}

/// `s` after `pat` has been taken from its start as many times as it stands
/// there. An empty `pat` takes nothing.
pub open spec fn sin_prefijos(s: Seq<char>, pat: Seq<char>) -> Seq<char>
    decreases s.len(),
{
    if pat.len() > 0 && pat.is_prefix_of(s) {
        sin_prefijos(s.skip(pat.len() as int), pat)
    } else {
        s
    }
}

/// `s` after `pat` has been taken from its end as many times as it stands
/// there. An empty `pat` takes nothing.
pub open spec fn sin_sufijos(s: Seq<char>, pat: Seq<char>) -> Seq<char>
    decreases s.len(),
{
    if pat.len() > 0 && pat.is_suffix_of(s) {
        sin_sufijos(s.take(s.len() - pat.len()), pat)
    } else {
        s
    }
}

/// Whether `pat` stands in `v` at position `desde`.
pub fn coincide(v: &Vec<char>, desde: usize, pat: &Vec<char>) -> (r: bool)
    requires
        desde <= v.len(),
    ensures
        r == (desde + pat.len() <= v.len() && v@.subrange(desde as int, desde + pat.len())
            == pat@),
{
    if pat.len() > v.len() - desde {
        return false;
    }
    let ghost tramo = v@.subrange(desde as int, desde + pat.len());
    let mut i: usize = 0;
    while i < pat.len()
        invariant
            i <= pat.len(),
            desde + pat.len() <= v.len(),
            tramo == v@.subrange(desde as int, desde + pat.len()),
            forall|k: int| 0 <= k < i ==> tramo[k] == pat@[k],
        decreases pat.len() - i,
    {
        if v[desde + i] != pat[i] {
            assert(tramo[i as int] != pat@[i as int]);
            return false;
        }
        i += 1;
    }
    assert(tramo =~= pat@);
    true
}

/// Takes `pat` from the start of `v` as many times as it stands there.
pub fn quitar_prefijos(v: &Vec<char>, pat: &Vec<char>) -> (r: Vec<char>)
    ensures
        r@ == sin_prefijos(v@, pat@),
{
    let mut a: usize = 0;
    assert(v@.skip(0) =~= v@);
    if pat.len() > 0 {
        while coincide(v, a, pat)
            invariant
                a <= v.len(),
                pat.len() > 0,
                sin_prefijos(v@, pat@) == sin_prefijos(v@.skip(a as int), pat@),
            decreases v.len() - a,
        {
            proof {
                let t = v@.skip(a as int);
                assert(t.subrange(0, pat.len() as int) =~= v@.subrange(
                    a as int,
                    a + pat.len(),
                ));
                assert(t.skip(pat.len() as int) =~= v@.skip(a + pat.len()));
            }
            a += pat.len();
        }
        proof {
            let t = v@.skip(a as int);
            if pat@.is_prefix_of(t) {
                assert(t.subrange(0, pat.len() as int) =~= v@.subrange(
                    a as int,
                    a + pat.len(),
                ));
            }
        }
    }
    subcadena(v, a, v.len())
}

/// Takes `pat` from the end of `v` as many times as it stands there.
pub fn quitar_sufijos(v: &Vec<char>, pat: &Vec<char>) -> (r: Vec<char>)
    ensures
        r@ == sin_sufijos(v@, pat@),
{
    let mut b: usize = v.len();
    assert(v@.take(b as int) =~= v@);
    if pat.len() > 0 {
        while b >= pat.len() && coincide(v, b - pat.len(), pat)
            invariant
                b <= v.len(),
                pat.len() > 0,
                sin_sufijos(v@, pat@) == sin_sufijos(v@.take(b as int), pat@),
            decreases b,
        {
            proof {
                let t = v@.take(b as int);
                assert(t.subrange(t.len() - pat.len(), t.len() as int) =~= v@.subrange(
                    b - pat.len(),
                    b as int,
                ));
                assert(t.take(t.len() - pat.len()) =~= v@.take(b - pat.len()));
            }
            b -= pat.len();
        }
        proof {
            let t = v@.take(b as int);
            if pat@.is_suffix_of(t) {
                assert(t.subrange(t.len() - pat.len(), t.len() as int) =~= v@.subrange(
                    b - pat.len(),
                    b as int,
                ));
            }
        }
    }
    subcadena(v, 0, b)
}

/// Takes the character `c` from the start of `v` as many times as it stands
/// there.
pub fn quitar_iniciales(v: &Vec<char>, c: char) -> (r: Vec<char>)
    ensures
        r@ == sin_prefijos(v@, seq![c]),
{
    let mut pat: Vec<char> = Vec::new();
    pat.push(c);
    assert(pat@ =~= seq![c]);
    quitar_prefijos(v, &pat)
}

/// Takes the character `c` from the end of `v` as many times as it stands
/// there.
pub fn quitar_finales(v: &Vec<char>, c: char) -> (r: Vec<char>)
    ensures
        r@ == sin_sufijos(v@, seq![c]),
{
    let mut pat: Vec<char> = Vec::new();
    pat.push(c);
    assert(pat@ =~= seq![c]);
    quitar_sufijos(v, &pat)
}

/// Adding one element to a list adds its view to the list of views.
pub proof fn lema_vistas_push<T: View>(v: Seq<T>, x: T)
    ensures
        vistas(v.push(x)) == vistas(v).push(x@),
{
    assert(vistas(v.push(x)) =~= vistas(v).push(x@));
}

/// The pieces of `s` that the occurrences of `sep` part: always at least one,
/// and one more than there are separators.
pub open spec fn partido(s: Seq<char>, sep: char) -> Seq<Seq<char>>
    decreases s.len(),
{
    let n = largo_prefijo(s, distinto_de(sep)) as int;
    if n >= s.len() {
        seq![s]
    } else {
        seq![s.take(n)] + partido(s.skip(n + 1), sep)
    }
}

/// Parts `v` at each occurrence of `sep`.
pub fn partir(v: &Vec<char>, sep: char) -> (r: Vec<Vec<char>>)
    ensures
        vistas(r@) == partido(v@, sep),
{
    let mut r: Vec<Vec<char>> = Vec::new();
    let mut inicio: usize = 0;
    let mut i: usize = 0;
    assert(v@.skip(0) =~= v@);
    assert(vistas(r@) + partido(v@, sep) =~= partido(v@, sep));
    while i < v.len()
        invariant
            inicio <= i <= v.len(),
            forall|k: int| inicio <= k < i ==> v@[k] != sep,
            partido(v@, sep) == vistas(r@) + partido(v@.skip(inicio as int), sep),
        decreases v.len() - i,
    {
        if v[i] == sep {
            let pieza = subcadena(v, inicio, i);
            proof {
                let t = v@.skip(inicio as int);
                lema_largo_prefijo(t, distinto_de(sep), i - inicio);
                assert(t.take(i - inicio) =~= pieza@);
                assert(t.skip(i - inicio + 1) =~= v@.skip(i + 1));
                lema_vistas_push(r@, pieza);
                assert(vistas(r@) + (seq![pieza@] + partido(v@.skip(i + 1), sep)) =~= vistas(
                    r@,
                ).push(pieza@) + partido(v@.skip(i + 1), sep));
            }
            r.push(pieza);
            inicio = i + 1;
        }
        i += 1;
    }
    let pieza = subcadena(v, inicio, v.len());
    proof {
        let t = v@.skip(inicio as int);
        lema_largo_prefijo(t, distinto_de(sep), t.len() as int);
        assert(t =~= pieza@);
        lema_vistas_push(r@, pieza);
        assert(vistas(r@) + seq![pieza@] =~= vistas(r@).push(pieza@));
    }
    r.push(pieza);
    r
}

/// The words of `s`: its longest runs of characters that are not white space,
/// in order.
pub open spec fn palabras(s: Seq<char>) -> Seq<Seq<char>>
    decreases s.len(),
{
    if s.len() == 0 {
        Seq::empty()
    } else if es_espacio(s[0]) {
        palabras(s.drop_first())
    } else {
        let n = largo_prefijo(s, no_blanco()) as int;
        proof {
            lema_prefijo_acotado(s, no_blanco());
        }
        seq![s.take(n)] + palabras(s.skip(n))
    }
}

/// Parts `v` into its words.
pub fn partir_espacios(v: &Vec<char>) -> (r: Vec<Vec<char>>)
    ensures
        vistas(r@) == palabras(v@),
{
    let mut r: Vec<Vec<char>> = Vec::new();
    let mut i: usize = 0;
    assert(v@.skip(0) =~= v@);
    assert(vistas(r@) + palabras(v@) =~= palabras(v@));
    while i < v.len()
        invariant
            i <= v.len(),
            palabras(v@) == vistas(r@) + palabras(v@.skip(i as int)),
        decreases v.len() - i,
    {
        if es_blanco(v[i]) {
            assert(v@.skip(i as int).drop_first() =~= v@.skip(i + 1));
            i += 1;
        } else {
            let mut j: usize = i + 1;
            while j < v.len() && !es_blanco(v[j])
                invariant
                    i < j <= v.len(),
                    forall|k: int| i <= k < j ==> !es_espacio(#[trigger] v@[k]),
                decreases v.len() - j,
            {
                j += 1;
            }
            let palabra = subcadena(v, i, j);
            proof {
                let t = v@.skip(i as int);
                lema_largo_prefijo(t, no_blanco(), j - i);
                assert(t.take(j - i) =~= palabra@);
                assert(t.skip(j - i) =~= v@.skip(j as int));
                lema_vistas_push(r@, palabra);
                assert(vistas(r@) + (seq![palabra@] + palabras(v@.skip(j as int))) =~= vistas(
                    r@,
                ).push(palabra@) + palabras(v@.skip(j as int)));
            }
            r.push(palabra);
            i = j;
        }
    }
    assert(vistas(r@) + palabras(v@.skip(i as int)) =~= vistas(r@));
    r
}

/// The texts of `partes` in one, with `sep` between each two neighbours.
pub open spec fn unido(partes: Seq<Seq<char>>, sep: Seq<char>) -> Seq<char>
    decreases partes.len(),
{
    if partes.len() == 0 {
        Seq::empty()
    } else if partes.len() == 1 {
        partes[0]
    } else {
        unido(partes.drop_last(), sep) + sep + partes.last()
    }
}

/// Appends the characters of `x` to `r`.
pub fn anexar(r: &mut Vec<char>, x: &Vec<char>)
    ensures
        final(r)@ == old(r)@ + x@,
{
    let mut i: usize = 0;
    assert(r@ =~= old(r)@ + x@.take(0));
    while i < x.len()
        invariant
            i <= x.len(),
            r@ == old(r)@ + x@.take(i as int),
        decreases x.len() - i,
    {
        r.push(x[i]);
        assert(old(r)@ + x@.take(i + 1) =~= (old(r)@ + x@.take(i as int)).push(x@[i as int]));
        i += 1;
    }
    assert(x@.take(x.len() as int) =~= x@);
}

/// Joins the texts of `partes` from position `desde` up to, not including,
/// position `hasta`, with `sep` between each two neighbours.
pub fn unir_tramo(partes: &Vec<Vec<char>>, desde: usize, hasta: usize, sep: &Vec<char>) -> (r:
    Vec<char>)
    requires
        desde <= hasta <= partes.len(),
    ensures
        r@ == unido(vistas(partes@).subrange(desde as int, hasta as int), sep@),
{
    let mut r: Vec<char> = Vec::new();
    let mut i: usize = desde;
    let ghost todas = vistas(partes@);
    while i < hasta
        invariant
            desde <= i <= hasta <= partes.len(),
            todas == vistas(partes@),
            r@ == unido(todas.subrange(desde as int, i as int), sep@),
        decreases hasta - i,
    {
        proof {
            assert(todas.subrange(desde as int, i + 1).drop_last() =~= todas.subrange(
                desde as int,
                i as int,
            ));
            assert(todas.subrange(desde as int, i + 1).last() == partes@[i as int]@);
        }
        if i > desde {
            anexar(&mut r, sep);
        }
        anexar(&mut r, &partes[i]);
        proof {
            if i == desde {
                assert(r@ =~= partes@[i as int]@);
            }
        }
        i += 1;
    }
    r
}

/// Joins `partes` with `sep` between each two neighbours.
pub fn unir(partes: &Vec<Vec<char>>, sep: &Vec<char>) -> (r: Vec<char>)
    ensures
        r@ == unido(vistas(partes@), sep@),
{
    assert(vistas(partes@).subrange(0, partes.len() as int) =~= vistas(partes@));
    unir_tramo(partes, 0, partes.len(), sep)
}

/// The text that holds one space.
pub fn espacio() -> (r: Vec<char>)
    ensures
        r@ == seq![' '],
{
    let mut r: Vec<char> = Vec::new();
    r.push(' ');
    assert(r@ =~= seq![' ']);
    r
}

/// Whether `a` comes strictly before `b` in the order of strings: at the
/// first position where they differ the character of `a` has the smaller code
/// point, or `a` ends there and `b` goes on. This is the order of the UTF-8
/// bytes of the two texts.
pub open spec fn precede(a: Seq<char>, b: Seq<char>) -> bool
    decreases a.len(),
{
    if b.len() == 0 {
        false
    } else if a.len() == 0 {
        true
    } else if a[0] != b[0] {
        a[0] < b[0]
    } else {
        precede(a.drop_first(), b.drop_first())
    }
}

/// Decides `precede`.
pub fn es_menor(a: &Vec<char>, b: &Vec<char>) -> (r: bool)
    ensures
        r == precede(a@, b@),
{
    let mut i: usize = 0;
    assert(a@.skip(0) =~= a@);
    assert(b@.skip(0) =~= b@);
    while i < a.len() && i < b.len()
        invariant
            i <= a.len(),
            i <= b.len(),
            precede(a@, b@) == precede(a@.skip(i as int), b@.skip(i as int)),
        decreases a.len() - i,
    {
        if a[i] != b[i] {
            return a[i] < b[i];
        }
        assert(a@.skip(i as int).drop_first() =~= a@.skip(i + 1));
        assert(b@.skip(i as int).drop_first() =~= b@.skip(i + 1));
        i += 1;
    }
    i < b.len()
}

/// The text that holds the two characters `a` and `b`.
pub fn par(a: char, b: char) -> (r: Vec<char>)
    ensures
        r@ == seq![a, b],
{
    let mut r: Vec<char> = Vec::new();
    r.push(a);
    r.push(b);
    assert(r@ =~= seq![a, b]);
    r
}

/// The strings made of the texts of `v` from position `desde` up to, not
/// including, position `hasta`.
pub fn cadenas_tramo(v: &Vec<Vec<char>>, desde: usize, hasta: usize) -> (r: Vec<String>)
    requires
        desde <= hasta <= v.len(),
    ensures
        vistas(r@) == vistas(v@).subrange(desde as int, hasta as int),
{
    let mut r: Vec<String> = Vec::new();
    let mut i: usize = desde;
    while i < hasta
        invariant
            desde <= i <= hasta <= v.len(),
            r.len() == i - desde,
            forall|k: int| 0 <= k < i - desde ==> (#[trigger] r[k])@ == v[desde + k]@,
        decreases hasta - i,
    {
        r.push(cadena(&v[i]));
        i += 1;
    }
    assert(vistas(r@) =~= vistas(v@).subrange(desde as int, hasta as int));
    r
}

/// The elements of `s` that satisfy `p`, in their order.
pub open spec fn filtrado(s: Seq<Seq<char>>, p: spec_fn(Seq<char>) -> bool) -> Seq<Seq<char>>
    decreases s.len(),
{
    if s.len() == 0 {
        Seq::empty()
    } else if p(s.last()) {
        filtrado(s.drop_last(), p).push(s.last())
    } else {
        filtrado(s.drop_last(), p)
    }
}

/// The upper-case form of each text of `v`.
pub open spec fn mayusculas_de_cada(v: Seq<Seq<char>>) -> Seq<Seq<char>> {
    Seq::new(v.len(), |i: int| mayusculas(v[i]))
}

/// Gives the upper-case form of each text of `v`.
pub fn pasar_cada_a_mayusculas(v: &Vec<Vec<char>>) -> (r: Vec<Vec<char>>)
    ensures
        vistas(r@) == mayusculas_de_cada(vistas(v@)),
{
    let mut r: Vec<Vec<char>> = Vec::new();
    let mut i: usize = 0;
    while i < v.len()
        invariant
            i <= v.len(),
            r.len() == i,
            forall|k: int| 0 <= k < i ==> (#[trigger] r[k])@ == mayusculas(v[k]@),
        decreases v.len() - i,
    {
        let palabra = cadena(&v[i]);
        let mayus = pasar_a_mayusculas(palabra.as_str());
        r.push(caracteres(mayus.as_str()));
        i += 1;
    }
    assert(vistas(r@) =~= mayusculas_de_cada(vistas(v@)));
    r
}

/// The first position from `i` on at which the text `buscada` stands in
/// `lista`.
pub open spec fn posicion_desde(lista: Seq<Seq<char>>, buscada: Seq<char>, i: int) -> Option<int>
    decreases lista.len() - i,
{
    if i < 0 || i >= lista.len() {
        None
    } else if lista[i] == buscada {
        Some(i)
    } else {
        posicion_desde(lista, buscada, i + 1)
    }
}

/// The first position at which the text `buscada` stands in `lista`.
pub open spec fn posicion_de(lista: Seq<Seq<char>>, buscada: Seq<char>) -> Option<int> {
    posicion_desde(lista, buscada, 0)
}

/// `posicion_desde` gives a position within the list, not before `i`, at
/// which the text stands and before which, from `i` on, it does not; it
/// gives none only where the text stands nowhere from `i` on.
pub proof fn lema_posicion_desde(lista: Seq<Seq<char>>, buscada: Seq<char>, i: int)
    requires
        0 <= i,
    ensures
        match posicion_desde(lista, buscada, i) {
            Some(k) => i <= k < lista.len() && lista[k] == buscada && forall|j: int|
                i <= j < k ==> lista[j] != buscada,
            None => forall|j: int| i <= j < lista.len() ==> lista[j] != buscada,
        },
    decreases lista.len() - i,
{
    if i < lista.len() && lista[i] != buscada {
        lema_posicion_desde(lista, buscada, i + 1);
    }
}

/// Finds the first position at which the text `buscada` stands in `lista`.
pub fn buscar(lista: &Vec<Vec<char>>, buscada: &Vec<char>) -> (r: Option<usize>)
    ensures
        match posicion_de(vistas(lista@), buscada@) {
            Some(k) => r == Some(k as usize) && 0 <= k < lista.len(),
            None => r is None,
        },
{
    let ghost todas = vistas(lista@);
    let mut i: usize = 0;
    while i < lista.len()
        invariant
            i <= lista.len(),
            todas == vistas(lista@),
            posicion_de(todas, buscada@) == posicion_desde(todas, buscada@, i as int),
        decreases lista.len() - i,
    {
        assert(todas[i as int] == lista@[i as int]@);
        if iguales(&lista[i], buscada) {
            return Some(i);
        }
        i += 1;
    }
    None
}

/// The predicate "is one of `caracteres`".
pub open spec fn uno_de(caracteres: Seq<char>) -> spec_fn(char) -> bool {
    |c: char| caracteres.contains(c)
}

/// Whether `c` is one of the characters of `v`.
pub fn contiene(v: &Vec<char>, c: char) -> (r: bool)
    ensures
        r == v@.contains(c),
{
    let mut i: usize = 0;
    while i < v.len()
        invariant
            i <= v.len(),
            forall|k: int| 0 <= k < i ==> v@[k] != c,
        decreases v.len() - i,
    {
        if v[i] == c {
            return true;
        }
        i += 1;
    }
    false
}

/// Removes from both ends of `v` the characters that are among `fuera`.
pub fn recortar_caracteres(v: &Vec<char>, fuera: &Vec<char>) -> (r: Vec<char>)
    ensures
        r@ == sin_extremos(v@, uno_de(fuera@)),
{
    let n: usize = v.len();
    let mut a: usize = 0;
    while a < n && contiene(fuera, v[a])
        invariant
            a <= n == v.len(),
            forall|k: int| 0 <= k < a ==> fuera@.contains(#[trigger] v@[k]),
        decreases n - a,
    {
        a += 1;
    }
    let mut b: usize = n;
    while b > a && contiene(fuera, v[b - 1])
        invariant
            a <= b <= n == v.len(),
            forall|k: int| b <= k < n ==> fuera@.contains(#[trigger] v@[k]),
        decreases b,
    {
        b -= 1;
    }
    proof {
        lema_largo_prefijo(v@, uno_de(fuera@), a as int);
        let t = v@.skip(a as int);
        lema_largo_sufijo(t, uno_de(fuera@), n - b);
        assert(t.take(t.len() - (n - b)) =~= v@.subrange(a as int, b as int));
    }
    subcadena(v, a, b)
}

/// Joining a text and then a list of texts is joining the list with the text
/// put before it.
pub proof fn lema_unido_con_primero(x: Seq<char>, resto: Seq<Seq<char>>, sep: Seq<char>)
    requires
        resto.len() > 0,
    ensures
        unido(seq![x] + resto, sep) == x + sep + unido(resto, sep),
    decreases resto.len(),
{
    let todo = seq![x] + resto;
    assert(todo.last() == resto.last());
    if resto.len() == 1 {
        assert(todo.drop_last() =~= seq![x]);
        assert(unido(seq![x], sep) == x);
        assert(unido(resto, sep) == resto[0]);
    } else {
        assert(todo.drop_last() =~= seq![x] + resto.drop_last());
        lema_unido_con_primero(x, resto.drop_last(), sep);
        assert(unido(todo, sep) =~= x + sep + unido(resto, sep));
    }
}

/// Parting never gives an empty list.
pub proof fn lema_partido_no_vacio(s: Seq<char>, sep: char)
    ensures
        partido(s, sep).len() > 0,
{
}

/// Joining the parts of a text with the separator that parted it gives the
/// text back.
pub proof fn lema_partir_y_unir(s: Seq<char>, sep: char)
    ensures
        unido(partido(s, sep), seq![sep]) == s,
    decreases s.len(),
{
    let n = largo_prefijo(s, distinto_de(sep)) as int;
    lema_prefijo_acotado(s, distinto_de(sep));
    if n < s.len() {
        let resto = s.skip(n + 1);
        lema_partir_y_unir(resto, sep);
        lema_partido_no_vacio(resto, sep);
        lema_unido_con_primero(s.take(n), partido(resto, sep), seq![sep]);
        assert(s.take(n) + seq![sep] + resto =~= s);
    }
}

/// The order of strings is strict: no text comes before itself, and of two
/// texts at most one comes before the other.
pub proof fn lema_precede_asimetrica(a: Seq<char>, b: Seq<char>)
    ensures
        !precede(a, a),
        precede(a, b) ==> !precede(b, a),
    decreases a.len(),
{
    if a.len() > 0 {
        lema_precede_asimetrica(a.drop_first(), a.drop_first());
        if b.len() > 0 && a[0] == b[0] {
            lema_precede_asimetrica(a.drop_first(), b.drop_first());
        }
    }
}

/// The order of strings is total: of two texts that differ one comes before
/// the other.
pub proof fn lema_precede_total(a: Seq<char>, b: Seq<char>)
    ensures
        precede(a, b) || a == b || precede(b, a),
    decreases a.len(),
{
    if a.len() > 0 && b.len() > 0 {
        if a[0] == b[0] {
            lema_precede_total(a.drop_first(), b.drop_first());
            if a.drop_first() == b.drop_first() {
                assert(a =~= seq![a[0]] + a.drop_first());
                assert(b =~= seq![b[0]] + b.drop_first());
            }
        }
    } else if a.len() == 0 && b.len() == 0 {
        assert(a =~= b);
    }
}

/// The order of strings is transitive.
pub proof fn lema_precede_transitiva(a: Seq<char>, b: Seq<char>, c: Seq<char>)
    requires
        precede(a, b),
        precede(b, c),
    ensures
        precede(a, c),
    decreases a.len(),
{
    if a.len() > 0 && b.len() > 0 && c.len() > 0 {
        if a[0] == b[0] && b[0] == c[0] {
            lema_precede_transitiva(a.drop_first(), b.drop_first(), c.drop_first());
        }
    }
}

/// Where `a` does not come before `b`, nor `b` before `c`, `a` does not
/// come before `c`.
pub proof fn lema_no_precede_transitiva(a: Seq<char>, b: Seq<char>, c: Seq<char>)
    requires
        !precede(a, b),
        !precede(b, c),
    ensures
        !precede(a, c),
{
    lema_precede_total(a, b);
    lema_precede_total(b, c);
    lema_precede_asimetrica(a, c);
    lema_precede_asimetrica(c, a);
    if precede(a, c) {
        if precede(b, a) {
            lema_precede_transitiva(b, a, c);
        }
    }
}

} // verus!
