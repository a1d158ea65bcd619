//! Building a Modelo 720 file from editable field values.
//!
//! Every record is 500 characters long; fields sit at fixed 1-based
//! positions (see `t1_line` and `t2_line` for the full layout). Amounts are
//! held as integer cents.
use vstd::prelude::*;
use vstd::string::*;
use crate::encoding::{encode_windows_1252, win1252_encode};
use crate::text::{
    all_digits, chars_of, dec, dec_padded, is_digit, is_digit_exec, lemma_utf8_len_bounds,
    push_char, string_of, trim, trim_chars, zero_pad,
};

verus! {

// ── Editable records ─────────────────────────────────────────────────────────

/// All editable fields for the Tipo 1 (header) record.
#[derive(Debug, Clone)]
pub struct Tipo1Fields {
    /// 4-digit year, e.g. "2024"
    pub ejercicio: String,
    /// 9-char NIF/NIE/CIF of the declarant
    pub nif_declarante: String,
    /// Up to 40 chars: apellidos y nombre or razón social
    pub nombre_declarante: String,
    /// 9-char NIF of the presenter. If blank, `nif_declarante` is used.
    pub nif_presentador: String,
    /// Up to 40 chars. If blank, `nombre_declarante` is used.
    pub nombre_presentador: String,
    /// 13 chars, must start with "720".
    pub num_identificativo: String,
    pub dec_complementaria: bool,
    pub dec_sustitutiva: bool,
    /// 13 digits. Only meaningful when `dec_sustitutiva` is true.
    pub num_dec_anterior: String,
}

/// The fields of a `Tipo1Fields`, as plain values.
#[verifier::ext_equal]
pub struct Tipo1View {
    pub ejercicio: Seq<char>,
    pub nif_declarante: Seq<char>,
    pub nombre_declarante: Seq<char>,
    pub nif_presentador: Seq<char>,
    pub nombre_presentador: Seq<char>,
    pub num_identificativo: Seq<char>,
    pub dec_complementaria: bool,
    pub dec_sustitutiva: bool,
    pub num_dec_anterior: Seq<char>,
}

impl View for Tipo1Fields {
    type V = Tipo1View;

    open spec fn view(&self) -> Tipo1View {
        Tipo1View {
            ejercicio: self.ejercicio@,
            nif_declarante: self.nif_declarante@,
            nombre_declarante: self.nombre_declarante@,
            nif_presentador: self.nif_presentador@,
            nombre_presentador: self.nombre_presentador@,
            num_identificativo: self.num_identificativo@,
            dec_complementaria: self.dec_complementaria,
            dec_sustitutiva: self.dec_sustitutiva,
            num_dec_anterior: self.num_dec_anterior@,
        }
    }
}

/// The fields of a new Tipo 1 record.
pub open spec fn default_t1() -> Tipo1View {
    Tipo1View {
        ejercicio: "2024"@,
        nif_declarante: Seq::empty(),
        nombre_declarante: Seq::empty(),
        nif_presentador: Seq::empty(),
        nombre_presentador: Seq::empty(),
        num_identificativo: "7200000000001"@,
        dec_complementaria: false,
        dec_sustitutiva: false,
        num_dec_anterior: "0000000000000"@,
    }
}

impl PartialEq for Tipo1Fields {
    fn eq(&self, other: &Self) -> (r: bool) {
        self.ejercicio == other.ejercicio
            && self.nif_declarante == other.nif_declarante
            && self.nombre_declarante == other.nombre_declarante
            && self.nif_presentador == other.nif_presentador
            && self.nombre_presentador == other.nombre_presentador
            && self.num_identificativo == other.num_identificativo
            && self.dec_complementaria == other.dec_complementaria
            && self.dec_sustitutiva == other.dec_sustitutiva
            && self.num_dec_anterior == other.num_dec_anterior
    }
}

impl vstd::std_specs::cmp::PartialEqSpecImpl for Tipo1Fields {
    open spec fn obeys_eq_spec() -> bool {
        true
    }

    open spec fn eq_spec(&self, other: &Self) -> bool {
        self@.ejercicio == other@.ejercicio
            && self@.nif_declarante == other@.nif_declarante
            && self@.nombre_declarante == other@.nombre_declarante
            && self@.nif_presentador == other@.nif_presentador
            && self@.nombre_presentador == other@.nombre_presentador
            && self@.num_identificativo == other@.num_identificativo
            && self@.dec_complementaria == other@.dec_complementaria
            && self@.dec_sustitutiva == other@.dec_sustitutiva
            && self@.num_dec_anterior == other@.num_dec_anterior
    }
}

impl Default for Tipo1Fields {
    fn default() -> (r: Self)
        ensures
            r@ == default_t1(),
    {
        Tipo1Fields {
            ejercicio: String::from_str("2024"),
            nif_declarante: String::new(),
            nombre_declarante: String::new(),
            nif_presentador: String::new(),
            nombre_presentador: String::new(),
            num_identificativo: String::from_str("7200000000001"),
            dec_complementaria: false,
            dec_sustitutiva: false,
            num_dec_anterior: String::from_str("0000000000000"),
        }
    }
}

/// All editable fields for a single Tipo 2 (asset) record.
#[derive(Debug, Clone)]
pub struct Tipo2Fields {
    /// 9-char NIF/NIE/CIF of the declared entity
    pub nif_declarado: String,
    /// 9-char NIF of the representative (blanks if none)
    pub nif_representante: String,
    /// Up to 40 chars
    pub nombre_declarado: String,
    /// '1'–'8'
    pub clave_condicion: char,
    /// C=Cuenta / V=Valores / I=IIC / S=Seguro / B=Inmueble
    pub clave_tipo_bien: char,
    pub subclave: char,
    /// 2-char ISO-3166 country code
    pub codigo_pais: String,
    /// '0'=none / '1'=ISIN / '2'=other
    pub clave_identificacion: char,
    /// Up to 12 chars (ISIN or other identifier)
    pub identificacion_valores: String,
    /// 'I'=IBAN / 'O'=other for C; ' ' otherwise
    pub clave_id_cuenta: char,
    /// Up to 11 chars BIC/SWIFT code
    pub codigo_bic: String,
    /// Up to 34 chars (IBAN)
    pub identificacion_cuenta: String,
    /// Up to 41 chars: entity name / bank name
    pub identificacion_entidad: String,
    /// Up to 20 chars: tax ID in the country of residence
    pub nif_fiscal_pais: String,
    /// Up to 40 chars: street address
    pub domicilio: String,
    /// Up to 30 chars: city / locality
    pub localidad: String,
    /// Up to 30 chars: municipality / province
    pub municipio: String,
    /// Up to 10 chars: postal code
    pub codigo_postal: String,
    /// 2-char ISO country of the domicile
    pub pais_domicilio: String,
    /// 8 digits AAAAMMDD; "00000000" if unknown
    pub fecha_incorporacion: String,
    /// A=Alta / M=Modificación / C=Cancelación
    pub origen: char,
    /// 8 digits AAAAMMDD; "00000000" when origen ≠ C
    pub fecha_extincion: String,
    /// First valuation, in euro cents.
    pub valoracion1_cents: i64,
    /// Second valuation, in euro cents.
    pub valoracion2_cents: i64,
    /// A|B for V/I; ' ' for other asset types
    pub clave_represent_valores: char,
    /// Number of units / shares
    pub num_valores: u64,
    /// U=Urbano / R=Rústico for B; ' ' otherwise
    pub clave_tipo_inmueble: char,
    /// 0–10000 representing 0.00 %–100.00 %
    pub porcentaje_participacion: u32,
}

/// The fields of a `Tipo2Fields`, as plain values.
#[verifier::ext_equal]
pub struct Tipo2View {
    pub nif_declarado: Seq<char>,
    pub nif_representante: Seq<char>,
    pub nombre_declarado: Seq<char>,
    pub clave_condicion: char,
    pub clave_tipo_bien: char,
    pub subclave: char,
    pub codigo_pais: Seq<char>,
    pub clave_identificacion: char,
    pub identificacion_valores: Seq<char>,
    pub clave_id_cuenta: char,
    pub codigo_bic: Seq<char>,
    pub identificacion_cuenta: Seq<char>,
    pub identificacion_entidad: Seq<char>,
    pub nif_fiscal_pais: Seq<char>,
    pub domicilio: Seq<char>,
    pub localidad: Seq<char>,
    pub municipio: Seq<char>,
    pub codigo_postal: Seq<char>,
    pub pais_domicilio: Seq<char>,
    pub fecha_incorporacion: Seq<char>,
    pub origen: char,
    pub fecha_extincion: Seq<char>,
    pub valoracion1_cents: int,
    pub valoracion2_cents: int,
    pub clave_represent_valores: char,
    pub num_valores: nat,
    pub clave_tipo_inmueble: char,
    pub porcentaje_participacion: nat,
}

impl View for Tipo2Fields {
    type V = Tipo2View;

    open spec fn view(&self) -> Tipo2View {
        Tipo2View {
            nif_declarado: self.nif_declarado@,
            nif_representante: self.nif_representante@,
            nombre_declarado: self.nombre_declarado@,
            clave_condicion: self.clave_condicion,
            clave_tipo_bien: self.clave_tipo_bien,
            subclave: self.subclave,
            codigo_pais: self.codigo_pais@,
            clave_identificacion: self.clave_identificacion,
            identificacion_valores: self.identificacion_valores@,
            clave_id_cuenta: self.clave_id_cuenta,
            codigo_bic: self.codigo_bic@,
            identificacion_cuenta: self.identificacion_cuenta@,
            identificacion_entidad: self.identificacion_entidad@,
            nif_fiscal_pais: self.nif_fiscal_pais@,
            domicilio: self.domicilio@,
            localidad: self.localidad@,
            municipio: self.municipio@,
            codigo_postal: self.codigo_postal@,
            pais_domicilio: self.pais_domicilio@,
            fecha_incorporacion: self.fecha_incorporacion@,
            origen: self.origen,
            fecha_extincion: self.fecha_extincion@,
            valoracion1_cents: self.valoracion1_cents as int,
            valoracion2_cents: self.valoracion2_cents as int,
            clave_represent_valores: self.clave_represent_valores,
            num_valores: self.num_valores as nat,
            clave_tipo_inmueble: self.clave_tipo_inmueble,
            porcentaje_participacion: self.porcentaje_participacion as nat,
        }
    }
}

/// The fields of a new Tipo 2 record.
pub open spec fn default_t2() -> Tipo2View {
    Tipo2View {
        nif_declarado: Seq::empty(),
        nif_representante: Seq::empty(),
        nombre_declarado: Seq::empty(),
        clave_condicion: '1',
        clave_tipo_bien: 'C',
        subclave: '1',
        codigo_pais: Seq::empty(),
        clave_identificacion: '0',
        identificacion_valores: Seq::empty(),
        clave_id_cuenta: 'I',
        codigo_bic: Seq::empty(),
        identificacion_cuenta: Seq::empty(),
        identificacion_entidad: Seq::empty(),
        nif_fiscal_pais: Seq::empty(),
        domicilio: Seq::empty(),
        localidad: Seq::empty(),
        municipio: Seq::empty(),
        codigo_postal: Seq::empty(),
        pais_domicilio: Seq::empty(),
        fecha_incorporacion: "00000000"@,
        origen: 'A',
        fecha_extincion: "00000000"@,
        valoracion1_cents: 0,
        valoracion2_cents: 0,
        clave_represent_valores: ' ',
        num_valores: 0,
        clave_tipo_inmueble: ' ',
        porcentaje_participacion: 0,
    }
}

impl PartialEq for Tipo2Fields {
    fn eq(&self, other: &Self) -> (r: bool) {
        self.nif_declarado == other.nif_declarado
            && self.nif_representante == other.nif_representante
            && self.nombre_declarado == other.nombre_declarado
            && self.clave_condicion == other.clave_condicion
            && self.clave_tipo_bien == other.clave_tipo_bien
            && self.subclave == other.subclave
            && self.codigo_pais == other.codigo_pais
            && self.clave_identificacion == other.clave_identificacion
            && self.identificacion_valores == other.identificacion_valores
            && self.clave_id_cuenta == other.clave_id_cuenta
            && self.codigo_bic == other.codigo_bic
            && self.identificacion_cuenta == other.identificacion_cuenta
            && self.identificacion_entidad == other.identificacion_entidad
            && self.nif_fiscal_pais == other.nif_fiscal_pais
            && self.domicilio == other.domicilio
            && self.localidad == other.localidad
            && self.municipio == other.municipio
            && self.codigo_postal == other.codigo_postal
            && self.pais_domicilio == other.pais_domicilio
            && self.fecha_incorporacion == other.fecha_incorporacion
            && self.origen == other.origen
            && self.fecha_extincion == other.fecha_extincion
            && self.valoracion1_cents == other.valoracion1_cents
            && self.valoracion2_cents == other.valoracion2_cents
            && self.clave_represent_valores == other.clave_represent_valores
            && self.num_valores == other.num_valores
            && self.clave_tipo_inmueble == other.clave_tipo_inmueble
            && self.porcentaje_participacion == other.porcentaje_participacion
    }
}

impl vstd::std_specs::cmp::PartialEqSpecImpl for Tipo2Fields {
    open spec fn obeys_eq_spec() -> bool {
        true
    }

    open spec fn eq_spec(&self, other: &Self) -> bool {
        self@.nif_declarado == other@.nif_declarado
            && self@.nif_representante == other@.nif_representante
            && self@.nombre_declarado == other@.nombre_declarado
            && self@.clave_condicion == other@.clave_condicion
            && self@.clave_tipo_bien == other@.clave_tipo_bien
            && self@.subclave == other@.subclave
            && self@.codigo_pais == other@.codigo_pais
            && self@.clave_identificacion == other@.clave_identificacion
            && self@.identificacion_valores == other@.identificacion_valores
            && self@.clave_id_cuenta == other@.clave_id_cuenta
            && self@.codigo_bic == other@.codigo_bic
            && self@.identificacion_cuenta == other@.identificacion_cuenta
            && self@.identificacion_entidad == other@.identificacion_entidad
            && self@.nif_fiscal_pais == other@.nif_fiscal_pais
            && self@.domicilio == other@.domicilio
            && self@.localidad == other@.localidad
            && self@.municipio == other@.municipio
            && self@.codigo_postal == other@.codigo_postal
            && self@.pais_domicilio == other@.pais_domicilio
            && self@.fecha_incorporacion == other@.fecha_incorporacion
            && self@.origen == other@.origen
            && self@.fecha_extincion == other@.fecha_extincion
            && self@.valoracion1_cents == other@.valoracion1_cents
            && self@.valoracion2_cents == other@.valoracion2_cents
            && self@.clave_represent_valores == other@.clave_represent_valores
            && self@.num_valores == other@.num_valores
            && self@.clave_tipo_inmueble == other@.clave_tipo_inmueble
            && self@.porcentaje_participacion == other@.porcentaje_participacion
    }
}

impl Default for Tipo2Fields {
    fn default() -> (r: Self)
        ensures
            r@ == default_t2(),
    {
        Tipo2Fields {
            nif_declarado: String::new(),
            nif_representante: String::new(),
            nombre_declarado: String::new(),
            clave_condicion: '1',
            clave_tipo_bien: 'C',
            subclave: '1',
            codigo_pais: String::new(),
            clave_identificacion: '0',
            identificacion_valores: String::new(),
            clave_id_cuenta: 'I',
            codigo_bic: String::new(),
            identificacion_cuenta: String::new(),
            identificacion_entidad: String::new(),
            nif_fiscal_pais: String::new(),
            domicilio: String::new(),
            localidad: String::new(),
            municipio: String::new(),
            codigo_postal: String::new(),
            pais_domicilio: String::new(),
            fecha_incorporacion: String::from_str("00000000"),
            origen: 'A',
            fecha_extincion: String::from_str("00000000"),
            valoracion1_cents: 0,
            valoracion2_cents: 0,
            clave_represent_valores: ' ',
            num_valores: 0,
            clave_tipo_inmueble: ' ',
            porcentaje_participacion: 0,
        }
    }
}

// ── Field formatting ─────────────────────────────────────────────────────────

pub open spec fn spaces(n: nat) -> Seq<char> {
    Seq::new(n, |_i: int| ' ')
}

/// The first `w` characters of `s` (all of them when it is shorter).
pub open spec fn head(s: Seq<char>, w: nat) -> Seq<char> {
    if s.len() <= w {
        s
    } else {
        s.take(w as int)
    }
}

/// `s` cut or right-padded with spaces to exactly `len` characters.
pub open spec fn padded(s: Seq<char>, len: nat) -> Seq<char> {
    head(s, len) + spaces((len - head(s, len).len()) as nat)
}

/// The ASCII digits of `s`, in order.
pub open spec fn digits_of(s: Seq<char>) -> Seq<char>
    decreases s.len(),
{
    if s.len() == 0 {
        Seq::empty()
    } else if is_digit(s.last()) {
        digits_of(s.drop_last()).push(s.last())
    } else {
        digits_of(s.drop_last())
    }
}

/// The last `len` digits of `s` (all of them when there are fewer),
/// left-padded with zeros to `len` characters.
pub open spec fn zero_filled(s: Seq<char>, len: nat) -> Seq<char> {
    let d = digits_of(s);
    zero_pad(d.skip(if d.len() > len { d.len() - len } else { 0 }), len)
}

/// A run of digits keeps all its characters.
pub proof fn lemma_digits_of_digits(s: Seq<char>)
    requires
        all_digits(s),
    ensures
        digits_of(s) == s,
    decreases s.len(),
{
    if s.len() > 0 {
        let p = s.drop_last();
        assert(all_digits(p)) by {
            assert forall|i: int| 0 <= i < p.len() implies is_digit(#[trigger] p[i]) by {
                assert(p[i] == s[i]);
            }
        }
        lemma_digits_of_digits(p);
        assert(is_digit(s[s.len() - 1]));
        assert(p.push(s.last()) =~= s);
    }
}

/// The digits of a concatenation are the digits of each part, in order.
pub proof fn lemma_digits_of_append(a: Seq<char>, b: Seq<char>)
    ensures
        digits_of(a + b) == digits_of(a) + digits_of(b),
    decreases b.len(),
{
    if b.len() == 0 {
        assert(a + b =~= a);
        assert(digits_of(a) + digits_of(b) =~= digits_of(a));
    } else {
        let b0 = b.drop_last();
        lemma_digits_of_append(a, b0);
        assert((a + b).drop_last() =~= a + b0);
        assert((a + b).last() == b.last());
        if is_digit(b.last()) {
            assert(digits_of(a) + digits_of(b0).push(b.last()) =~= (digits_of(a) + digits_of(b0)).push(b.last()));
        }
    }
}

pub open spec fn zero_date() -> Seq<char> {
    Seq::new(8, |_i: int| '0')
}

/// `s` when it is exactly 8 ASCII digits, else `"00000000"`.
pub open spec fn normalized_date(s: Seq<char>) -> Seq<char> {
    if s.len() == 8 && all_digits(s) {
        s
    } else {
        zero_date()
    }
}

/// The sign character of an amount: `'N'` when negative, a space otherwise.
pub open spec fn sign_char(cents: int) -> char {
    if cents < 0 {
        'N'
    } else {
        ' '
    }
}

/// The absolute value of an amount, in decimal, zero-padded to `width`.
pub open spec fn amount_digits(cents: int, width: nat) -> Seq<char> {
    zero_pad(dec((if cents < 0 { -cents } else { cents }) as nat), width)
}

/// Padding an already padded string changes nothing.
pub proof fn lemma_padded_idem(s: Seq<char>, len: nat)
    ensures
        padded(padded(s, len), len) == padded(s, len),
{
    assert(head(padded(s, len), len) =~= padded(s, len));
    assert(padded(padded(s, len), len) =~= padded(s, len));
}

/// A string of exactly `len` characters is its own padding.
pub proof fn lemma_padded_exact(s: Seq<char>, len: nat)
    requires
        s.len() == len,
    ensures
        padded(s, len) == s,
{
    assert(padded(s, len) =~= s);
}

/// Right-pad string with spaces to exactly `len` chars.
pub fn pad_right(s: &str, len: usize) -> (out: String)
    ensures
        out@ == padded(s@, len as nat),
{
    let cs = chars_of(s);
    let mut out = String::new();
    let mut i: usize = 0;
    while i < cs.len() && i < len
        invariant
            cs@ == s@,
            i <= cs@.len(),
            i <= len,
            out@ == cs@.take(i as int),
        decreases len - i,
    {
        push_char(&mut out, cs[i]);
        assert(cs@.take(i + 1) =~= cs@.take(i as int).push(cs@[i as int]));
        i += 1;
    }
    assert(out@ =~= head(s@, len as nat));
    let ghost h = out@;
    while i < len
        invariant
            i <= len,
            h.len() <= i,
            out@ == h + spaces((i - h.len()) as nat),
        decreases len - i,
    {
        push_char(&mut out, ' ');
        assert(out@ =~= h + spaces((i + 1 - h.len()) as nat));
        i += 1;
    }
    out
}

pub proof fn lemma_digits_of_all_digits(s: Seq<char>)
    ensures
        all_digits(digits_of(s)),
        digits_of(s).len() <= s.len(),
    decreases s.len(),
{
    if s.len() > 0 {
        lemma_digits_of_all_digits(s.drop_last());
    }
}

/// Left-pad the numeric digits of `s` with zeros to `len` chars.
/// Non-digit characters are dropped first; only the last `len` digits are kept.
pub fn pad_left_zeros(s: &str, len: usize) -> (out: String)
    ensures
        out@ == zero_filled(s@, len as nat),
{
    let cs = chars_of(s);
    let mut d: Vec<char> = Vec::new();
    let mut i: usize = 0;
    while i < cs.len()
        invariant
            cs@ == s@,
            i <= cs@.len(),
            d@ == digits_of(cs@.take(i as int)),
        decreases cs@.len() - i,
    {
        assert(cs@.take(i + 1).drop_last() =~= cs@.take(i as int));
        if is_digit_exec(cs[i]) {
            d.push(cs[i]);
        }
        i += 1;
    }
    assert(cs@.take(cs@.len() as int) =~= cs@);
    let start: usize = if d.len() > len {
        d.len() - len
    } else {
        0
    };
    let tail_len = d.len() - start;
    let mut out = String::new();
    let mut k: usize = tail_len;
    while k < len
        invariant
            tail_len <= k <= len,
            out@ == Seq::new((k - tail_len) as nat, |_j: int| '0'),
        decreases len - k,
    {
        push_char(&mut out, '0');
        assert(out@ =~= Seq::new((k + 1 - tail_len) as nat, |_j: int| '0'));
        k += 1;
    }
    let ghost zs = out@;
    let mut j: usize = start;
    while j < d.len()
        invariant
            start <= j <= d@.len(),
            out@ == zs + d@.subrange(start as int, j as int),
        decreases d@.len() - j,
    {
        push_char(&mut out, d[j]);
        assert(d@.subrange(start as int, j + 1) =~= d@.subrange(start as int, j as int).push(
            d@[j as int],
        ));
        j += 1;
    }
    assert(d@.skip(start as int) =~= d@.subrange(start as int, d@.len() as int));
    assert(out@ =~= zero_filled(s@, len as nat));
    out
}

/// Ensure `s` is exactly 8 ASCII digits; returns "00000000" otherwise.
pub fn norm_date(s: &str) -> (out: String)
    ensures
        out@ == normalized_date(s@),
{
    let cs = chars_of(s);
    let mut ok = cs.len() == 8;
    let mut i: usize = 0;
    while ok && i < cs.len()
        invariant
            cs@ == s@,
            i <= cs@.len(),
            ok ==> cs@.len() == 8,
            ok ==> forall|k: int| 0 <= k < i ==> is_digit(#[trigger] cs@[k]),
            !ok ==> !(cs@.len() == 8 && all_digits(cs@)),
        decreases cs@.len() - i,
    {
        if !is_digit_exec(cs[i]) {
            ok = false;
        }
        i += 1;
    }
    if ok {
        string_of(cs.as_slice())
    } else {
        proof {
            reveal_strlit("00000000");
        }
        let z = String::from_str("00000000");
        assert(z@ =~= zero_date());
        z
    }
}

/// Encode `cents` as (sign_char, zero-padded absolute digits).
///
/// - sign_char: `' '` for non-negative, `'N'` for negative.
/// - digits: absolute value, zero-padded to `width` chars.
pub fn encode_amount(cents: i64, width: usize) -> (r: (char, String))
    ensures
        r.0 == sign_char(cents as int),
        r.1@ == amount_digits(cents as int, width as nat),
{
    let sign = if cents < 0 {
        'N'
    } else {
        ' '
    };
    let abs: u64 = if cents >= 0 {
        cents as u64
    } else if cents == i64::MIN {
        9223372036854775808u64
    } else {
        (-cents) as u64
    };
    let d = dec_padded(abs, width);
    (sign, string_of(d.as_slice()))
}

// ── Writing fields into a record ─────────────────────────────────────────────

/// `buf` with `t` written over it from index `at` on.
pub open spec fn overwrite(buf: Seq<char>, at: int, t: Seq<char>) -> Seq<char> {
    Seq::new(buf.len(), |k: int| if at <= k < at + t.len() { t[k - at] } else { buf[k] })
}

/// Write `s` into `buf` at 1-based position `start`, up to `width` chars.
/// Remaining slots within `width` are left as they are.
pub fn wstr(buf: &mut Vec<char>, start: usize, s: &str, width: usize)
    requires
        start >= 1,
        start - 1 + head(s@, width as nat).len() <= old(buf)@.len(),
    ensures
        final(buf)@ == overwrite(old(buf)@, start - 1, head(s@, width as nat)),
{
    let ghost orig = buf@;
    let cs = chars_of(s);
    let n: usize = if cs.len() < width {
        cs.len()
    } else {
        width
    };
    let ghost h = head(s@, width as nat);
    assert(h =~= cs@.take(n as int));
    let mut i: usize = 0;
    while i < n
        invariant
            h == cs@.take(n as int),
            n <= cs@.len(),
            start >= 1,
            start - 1 + n <= orig.len(),
            orig.len() == buf.len(),
            i <= n,
            buf@ == overwrite(orig, start - 1, h.take(i as int)),
        decreases n - i,
    {
        buf.set(start - 1 + i, cs[i]);
        assert(buf@ =~= overwrite(orig, start - 1, h.take(i + 1)));
        i += 1;
    }
    assert(h.take(n as int) =~= h);
}

/// The record prefix `p` followed by `t` from index `at` on, with blanks in
/// between.
pub open spec fn extend(p: Seq<char>, at: int, t: Seq<char>) -> Seq<char> {
    if at == p.len() {
        p + t
    } else {
        p + spaces((at - p.len()) as nat) + t
    }
}

/// A record of 500 blanks.
fn blank_record() -> (buf: Vec<char>)
    ensures
        buf@ == spaces(500),
{
    let mut buf: Vec<char> = Vec::new();
    let mut i: usize = 0;
    while i < 500
        invariant
            i <= 500,
            buf@ == spaces(i as nat),
        decreases 500 - i,
    {
        buf.push(' ');
        assert(buf@ =~= spaces((i + 1) as nat));
        i += 1;
    }
    buf
}

/// `wstr` on a record whose characters after the prefix `p` are still blank.
fn put_str(buf: &mut Vec<char>, start: usize, s: &str, width: usize, Ghost(p): Ghost<Seq<char>>)
    requires
        1 <= start,
        p.len() <= start - 1,
        start - 1 + width <= old(buf)@.len(),
        old(buf)@ == p + spaces((old(buf)@.len() - p.len()) as nat),
    ensures
        final(buf)@ == extend(p, start - 1, padded(s@, width as nat)) + spaces(
            (old(buf)@.len() - (start - 1 + width)) as nat,
        ),
{
    let ghost n = buf@.len();
    wstr(buf, start, s, width);
    assert(buf@ =~= extend(p, start - 1, padded(s@, width as nat)) + spaces(
        (n - (start - 1 + width)) as nat,
    ));
}

/// Sets the character at index `at` of a record whose characters after the
/// prefix `p` are still blank.
fn put_char(buf: &mut Vec<char>, at: usize, c: char, Ghost(p): Ghost<Seq<char>>)
    requires
        p.len() <= at < old(buf)@.len(),
        old(buf)@ == p + spaces((old(buf)@.len() - p.len()) as nat),
    ensures
        final(buf)@ == extend(p, at as int, seq![c]) + spaces((old(buf)@.len() - (at + 1)) as nat),
{
    let ghost n = buf@.len();
    buf.set(at, c);
    assert(buf@ =~= extend(p, at as int, seq![c]) + spaces((n - (at + 1)) as nat));
}

// ── Tipo 1 ───────────────────────────────────────────────────────────────────

/// `.trim().is_empty()`.
pub open spec fn blank(s: Seq<char>) -> bool {
    trim(s).len() == 0
}

/// The presenter's NIF: the declarant's `nif` when none is given.
pub open spec fn presenter_nif(t1: Tipo1View, nif: Seq<char>) -> Seq<char> {
    if blank(t1.nif_presentador) {
        nif
    } else {
        t1.nif_presentador
    }
}

/// The presenter's name: the declarant's when none is given.
pub open spec fn presenter_name(t1: Tipo1View) -> Seq<char> {
    if blank(t1.nombre_presentador) {
        t1.nombre_declarante
    } else {
        t1.nombre_presentador
    }
}

/// The identifier written when none is given.
pub open spec fn default_identifier() -> Seq<char> {
    "7200000000001"@
}

/// The declaration's identifying number: the default `7200000000001` when
/// none is given.
pub open spec fn identifier(t1: Tipo1View) -> Seq<char> {
    if blank(t1.num_identificativo) {
        default_identifier()
    } else {
        t1.num_identificativo
    }
}

/// The Tipo 1 record for `t1`, with the year `ej`, the declarant's NIF `nif`,
/// `total` Tipo 2 records and the valuation sums `sum1` and `sum2` (cents).
///
/// Layout (1-based): 1 `'1'`; 2–4 `"720"`; 5–8 year; 9–17 NIF; 18–57 name;
/// 58 `'T'`; 59–67 presenter NIF; 68–107 presenter name; 108–120
/// identifying number (`7200000000001` when left blank); 121 complementary; 122 substitutive; 123–135 previous
/// declaration; 136–144 record count; 145 sign and 146–162 digits of the
/// first sum; 163 sign and 164–180 digits of the second; 181–500 blanks.
#[verifier::opaque]
pub open spec fn t1_line(
    t1: Tipo1View,
    ej: Seq<char>,
    nif: Seq<char>,
    total: nat,
    sum1: int,
    sum2: int,
) -> Seq<char> {
    seq!['1'] + "720"@ + padded(ej, 4) + padded(nif, 9) + padded(t1.nombre_declarante, 40)
        + seq!['T'] + padded(presenter_nif(t1, nif), 9) + padded(presenter_name(t1), 40)
        + padded(identifier(t1), 13) + seq![if t1.dec_complementaria { 'C' } else { ' ' }]
        + seq![if t1.dec_sustitutiva { 'S' } else { ' ' }] + zero_filled(t1.num_dec_anterior, 13)
        + padded(zero_pad(dec(total), 9), 9) + seq![sign_char(sum1)] + padded(
        amount_digits(sum1, 17),
        17,
    ) + seq![sign_char(sum2)] + padded(amount_digits(sum2, 17), 17) + spaces(320)
}

pub proof fn lemma_zero_filled_len(s: Seq<char>, len: nat)
    ensures
        zero_filled(s, len).len() == len,
{
}

fn is_blank_text(s: &str) -> (r: bool)
    ensures
        r == blank(s@),
{
    let cs = chars_of(s);
    let t = trim_chars(cs.as_slice());
    t.len() == 0
}

fn build_t1(
    t1: &Tipo1Fields,
    ejercicio: &str,
    nif_decl: &str,
    total_t2: usize,
    sum_val1_cents: i64,
    sum_val2_cents: i64,
) -> (line: String)
    ensures
        line@ == t1_line(
            t1@,
            ejercicio@,
            nif_decl@,
            total_t2 as nat,
            sum_val1_cents as int,
            sum_val2_cents as int,
        ),
{
    reveal(t1_line);
    let mut buf = blank_record();
    let ghost mut p: Seq<char> = Seq::empty();
    put_char(&mut buf, 0, '1', Ghost(p));
    proof {
        p = seq!['1'];
        assert(buf@ =~= p + spaces(499));
        reveal_strlit("720");
        lemma_padded_exact("720"@, 3);
    }
    put_str(&mut buf, 2, "720", 3, Ghost(p));
    proof {
        p = p + "720"@;
    }
    put_str(&mut buf, 5, ejercicio, 4, Ghost(p));
    proof {
        p = p + padded(ejercicio@, 4);
    }
    put_str(&mut buf, 9, nif_decl, 9, Ghost(p));
    proof {
        p = p + padded(nif_decl@, 9);
    }
    put_str(&mut buf, 18, t1.nombre_declarante.as_str(), 40, Ghost(p));
    proof {
        p = p + padded(t1.nombre_declarante@, 40);
    }
    put_char(&mut buf, 57, 'T', Ghost(p));
    proof {
        p = p + seq!['T'];
    }
    let nif_pres = if is_blank_text(t1.nif_presentador.as_str()) {
        String::from_str(nif_decl)
    } else {
        pad_right(t1.nif_presentador.as_str(), 9)
    };
    proof {
        lemma_padded_idem(t1.nif_presentador@, 9);
    }
    put_str(&mut buf, 59, nif_pres.as_str(), 9, Ghost(p));
    proof {
        p = p + padded(presenter_nif(t1@, nif_decl@), 9);
    }
    let nom_pres = if is_blank_text(t1.nombre_presentador.as_str()) {
        String::from_str(t1.nombre_declarante.as_str())
    } else {
        String::from_str(t1.nombre_presentador.as_str())
    };
    put_str(&mut buf, 68, nom_pres.as_str(), 40, Ghost(p));
    proof {
        p = p + padded(presenter_name(t1@), 40);
    }
    let numid = if is_blank_text(t1.num_identificativo.as_str()) {
        proof {
            reveal_strlit("7200000000001");
            lemma_padded_exact(default_identifier(), 13);
        }
        String::from_str("7200000000001")
    } else {
        proof {
            lemma_padded_idem(t1.num_identificativo@, 13);
        }
        pad_right(t1.num_identificativo.as_str(), 13)
    };
    put_str(&mut buf, 108, numid.as_str(), 13, Ghost(p));
    proof {
        p = p + padded(identifier(t1@), 13);
    }
    let c = if t1.dec_complementaria {
        'C'
    } else {
        ' '
    };
    put_char(&mut buf, 120, c, Ghost(p));
    proof {
        p = p + seq![c];
    }
    let s = if t1.dec_sustitutiva {
        'S'
    } else {
        ' '
    };
    put_char(&mut buf, 121, s, Ghost(p));
    proof {
        p = p + seq![s];
    }
    let anterior = pad_left_zeros(t1.num_dec_anterior.as_str(), 13);
    proof {
        lemma_zero_filled_len(t1.num_dec_anterior@, 13);
        lemma_padded_exact(anterior@, 13);
    }
    put_str(&mut buf, 123, anterior.as_str(), 13, Ghost(p));
    proof {
        p = p + zero_filled(t1.num_dec_anterior@, 13);
    }
    let count = string_of(dec_padded(total_t2 as u64, 9).as_slice());
    put_str(&mut buf, 136, count.as_str(), 9, Ghost(p));
    proof {
        p = p + padded(zero_pad(dec(total_t2 as nat), 9), 9);
    }
    let (s1, v1) = encode_amount(sum_val1_cents, 17);
    put_char(&mut buf, 144, s1, Ghost(p));
    proof {
        p = p + seq![s1];
    }
    put_str(&mut buf, 146, v1.as_str(), 17, Ghost(p));
    proof {
        p = p + padded(amount_digits(sum_val1_cents as int, 17), 17);
    }
    let (s2, v2) = encode_amount(sum_val2_cents, 17);
    put_char(&mut buf, 162, s2, Ghost(p));
    proof {
        p = p + seq![s2];
    }
    put_str(&mut buf, 164, v2.as_str(), 17, Ghost(p));
    proof {
        p = p + padded(amount_digits(sum_val2_cents as int, 17), 17);
    }
    string_of(buf.as_slice())
}

// ── Tipo 2 ───────────────────────────────────────────────────────────────────

/// The Tipo 2 record for `r`, with the year `ej` and the declarant's NIF `nif`.
///
/// Layout (1-based): 1 `'2'`; 2–4 `"720"`; 5–8 year; 9–17 declarant NIF;
/// 18–26 declared NIF; 27–35 representative NIF; 36–75 name; 76 condition;
/// 77–101 blanks; 102 asset type; 103 subtype; 104–128 blanks; 129–130
/// country; 131 identification key; 132–143 securities identification; 144
/// account key; 145–155 BIC; 156–189 account; 190–230 entity; 231–250 foreign
/// tax id; 251–290 address; 291–342 blanks; 343–372 locality; 373–402
/// municipality; 403–412 postal code; 413–414 country of the address;
/// 415–422 incorporation date; 423 origin; 424–431 extinction date; 432 sign
/// and 433–446 digits of the first valuation; 447 sign and 448–461 digits of
/// the second; 462 representation key; 463–474 number of units; 475 property
/// type; 476–480 ownership percentage; 481–500 blanks.
#[verifier::opaque]
pub open spec fn t2_line(ej: Seq<char>, nif: Seq<char>, r: Tipo2View) -> Seq<char> {
    seq!['2'] + "720"@ + padded(ej, 4) + padded(nif, 9) + padded(r.nif_declarado, 9) + padded(
        r.nif_representante,
        9,
    ) + padded(r.nombre_declarado, 40) + seq![r.clave_condicion] + spaces(25) + seq![
        r.clave_tipo_bien,
    ] + seq![r.subclave] + spaces(25) + padded(r.codigo_pais, 2) + seq![r.clave_identificacion]
        + padded(r.identificacion_valores, 12) + seq![r.clave_id_cuenta] + padded(r.codigo_bic, 11)
        + padded(r.identificacion_cuenta, 34) + padded(r.identificacion_entidad, 41) + padded(
        r.nif_fiscal_pais,
        20,
    ) + padded(r.domicilio, 40) + spaces(52) + padded(r.localidad, 30) + padded(r.municipio, 30)
        + padded(r.codigo_postal, 10) + padded(r.pais_domicilio, 2) + normalized_date(
        r.fecha_incorporacion,
    ) + seq![r.origen] + normalized_date(r.fecha_extincion) + seq![sign_char(r.valoracion1_cents)]
        + padded(amount_digits(r.valoracion1_cents, 14), 14) + seq![sign_char(r.valoracion2_cents)]
        + padded(amount_digits(r.valoracion2_cents, 14), 14) + seq![r.clave_represent_valores]
        + padded(zero_pad(dec(r.num_valores), 12), 12) + seq![r.clave_tipo_inmueble] + padded(
        zero_pad(dec(r.porcentaje_participacion), 5),
        5,
    ) + spaces(20)
}

/// `wstr` of `pad_right(s, width)`: the same as writing `s` itself.
fn put_padded(buf: &mut Vec<char>, start: usize, s: &str, width: usize, Ghost(p): Ghost<Seq<char>>)
    requires
        1 <= start,
        p.len() <= start - 1,
        start - 1 + width <= old(buf)@.len(),
        old(buf)@ == p + spaces((old(buf)@.len() - p.len()) as nat),
    ensures
        final(buf)@ == extend(p, start - 1, padded(s@, width as nat)) + spaces(
            (old(buf)@.len() - (start - 1 + width)) as nat,
        ),
{
    let t = pad_right(s, width);
    proof {
        lemma_padded_idem(s@, width as nat);
    }
    put_str(buf, start, t.as_str(), width, Ghost(p));
}

fn build_t2(ejercicio: &str, nif_decl: &str, r: &Tipo2Fields) -> (line: String)
    ensures
        line@ == t2_line(ejercicio@, nif_decl@, r@),
{
    reveal(t2_line);
    let mut buf = blank_record();
    let ghost mut p: Seq<char> = Seq::empty();
    put_char(&mut buf, 0, '2', Ghost(p));
    proof {
        p = seq!['2'];
        assert(buf@ =~= p + spaces(499));
        reveal_strlit("720");
        lemma_padded_exact("720"@, 3);
    }
    put_str(&mut buf, 2, "720", 3, Ghost(p));
    proof {
        p = p + "720"@;
    }
    put_str(&mut buf, 5, ejercicio, 4, Ghost(p));
    proof {
        p = p + padded(ejercicio@, 4);
    }
    put_str(&mut buf, 9, nif_decl, 9, Ghost(p));
    proof {
        p = p + padded(nif_decl@, 9);
    }
    put_padded(&mut buf, 18, r.nif_declarado.as_str(), 9, Ghost(p));
    proof {
        p = p + padded(r.nif_declarado@, 9);
    }
    put_padded(&mut buf, 27, r.nif_representante.as_str(), 9, Ghost(p));
    proof {
        p = p + padded(r.nif_representante@, 9);
    }
    put_str(&mut buf, 36, r.nombre_declarado.as_str(), 40, Ghost(p));
    proof {
        p = p + padded(r.nombre_declarado@, 40);
    }
    put_char(&mut buf, 75, r.clave_condicion, Ghost(p));
    proof {
        p = p + seq![r.clave_condicion];
    }
    // positions 77–101 (TIPO_TITULARIDAD) stay blank
    put_char(&mut buf, 101, r.clave_tipo_bien, Ghost(p));
    proof {
        p = p + spaces(25) + seq![r.clave_tipo_bien];
    }
    put_char(&mut buf, 102, r.subclave, Ghost(p));
    proof {
        p = p + seq![r.subclave];
    }
    // positions 104–128 stay blank
    put_padded(&mut buf, 129, r.codigo_pais.as_str(), 2, Ghost(p));
    proof {
        p = p + spaces(25) + padded(r.codigo_pais@, 2);
    }
    put_char(&mut buf, 130, r.clave_identificacion, Ghost(p));
    proof {
        p = p + seq![r.clave_identificacion];
    }
    put_padded(&mut buf, 132, r.identificacion_valores.as_str(), 12, Ghost(p));
    proof {
        p = p + padded(r.identificacion_valores@, 12);
    }
    put_char(&mut buf, 143, r.clave_id_cuenta, Ghost(p));
    proof {
        p = p + seq![r.clave_id_cuenta];
    }
    put_padded(&mut buf, 145, r.codigo_bic.as_str(), 11, Ghost(p));
    proof {
        p = p + padded(r.codigo_bic@, 11);
    }
    put_padded(&mut buf, 156, r.identificacion_cuenta.as_str(), 34, Ghost(p));
    proof {
        p = p + padded(r.identificacion_cuenta@, 34);
    }
    put_str(&mut buf, 190, r.identificacion_entidad.as_str(), 41, Ghost(p));
    proof {
        p = p + padded(r.identificacion_entidad@, 41);
    }
    put_padded(&mut buf, 231, r.nif_fiscal_pais.as_str(), 20, Ghost(p));
    proof {
        p = p + padded(r.nif_fiscal_pais@, 20);
    }
    put_str(&mut buf, 251, r.domicilio.as_str(), 40, Ghost(p));
    proof {
        p = p + padded(r.domicilio@, 40);
    }
    // positions 291–342 stay blank
    put_str(&mut buf, 343, r.localidad.as_str(), 30, Ghost(p));
    proof {
        p = p + spaces(52) + padded(r.localidad@, 30);
    }
    put_str(&mut buf, 373, r.municipio.as_str(), 30, Ghost(p));
    proof {
        p = p + padded(r.municipio@, 30);
    }
    put_padded(&mut buf, 403, r.codigo_postal.as_str(), 10, Ghost(p));
    proof {
        p = p + padded(r.codigo_postal@, 10);
    }
    put_padded(&mut buf, 413, r.pais_domicilio.as_str(), 2, Ghost(p));
    proof {
        p = p + padded(r.pais_domicilio@, 2);
    }
    let fi = norm_date(r.fecha_incorporacion.as_str());
    proof {
        lemma_padded_exact(fi@, 8);
    }
    put_str(&mut buf, 415, fi.as_str(), 8, Ghost(p));
    proof {
        p = p + normalized_date(r.fecha_incorporacion@);
    }
    put_char(&mut buf, 422, r.origen, Ghost(p));
    proof {
        p = p + seq![r.origen];
    }
    let fe = norm_date(r.fecha_extincion.as_str());
    proof {
        lemma_padded_exact(fe@, 8);
    }
    put_str(&mut buf, 424, fe.as_str(), 8, Ghost(p));
    proof {
        p = p + normalized_date(r.fecha_extincion@);
    }
    let (s1, d1) = encode_amount(r.valoracion1_cents, 14);
    put_char(&mut buf, 431, s1, Ghost(p));
    proof {
        p = p + seq![s1];
    }
    put_str(&mut buf, 433, d1.as_str(), 14, Ghost(p));
    proof {
        p = p + padded(amount_digits(r.valoracion1_cents as int, 14), 14);
    }
    let (s2, d2) = encode_amount(r.valoracion2_cents, 14);
    put_char(&mut buf, 446, s2, Ghost(p));
    proof {
        p = p + seq![s2];
    }
    put_str(&mut buf, 448, d2.as_str(), 14, Ghost(p));
    proof {
        p = p + padded(amount_digits(r.valoracion2_cents as int, 14), 14);
    }
    put_char(&mut buf, 461, r.clave_represent_valores, Ghost(p));
    proof {
        p = p + seq![r.clave_represent_valores];
    }
    let units = string_of(dec_padded(r.num_valores, 12).as_slice());
    put_str(&mut buf, 463, units.as_str(), 12, Ghost(p));
    proof {
        p = p + padded(zero_pad(dec(r.num_valores as nat), 12), 12);
    }
    put_char(&mut buf, 474, r.clave_tipo_inmueble, Ghost(p));
    proof {
        p = p + seq![r.clave_tipo_inmueble];
    }
    let pct = string_of(dec_padded(r.porcentaje_participacion as u64, 5).as_slice());
    put_str(&mut buf, 476, pct.as_str(), 5, Ghost(p));
    proof {
        p = p + padded(zero_pad(dec(r.porcentaje_participacion as nat), 5), 5);
    }
    // positions 481–500 stay blank
    string_of(buf.as_slice())
}

// ── The file ─────────────────────────────────────────────────────────────────

/// The text of a file: each line followed by CRLF.
pub open spec fn file_text(ls: Seq<Seq<char>>) -> Seq<char>
    decreases ls.len(),
{
    if ls.len() == 0 {
        Seq::empty()
    } else {
        file_text(ls.drop_last()) + ls.last() + seq!['\r', '\n']
    }
}

/// The records of a list, as plain values.
pub open spec fn field_views(rs: Seq<Tipo2Fields>) -> Seq<Tipo2View> {
    rs.map_values(|r: Tipo2Fields| r@)
}

/// Sum of the first valuations, in cents.
pub open spec fn sum_val1(rs: Seq<Tipo2View>) -> int
    decreases rs.len(),
{
    if rs.len() == 0 {
        0
    } else {
        sum_val1(rs.drop_last()) + rs.last().valoracion1_cents
    }
}

/// Sum of the second valuations, in cents.
pub open spec fn sum_val2(rs: Seq<Tipo2View>) -> int
    decreases rs.len(),
{
    if rs.len() == 0 {
        0
    } else {
        sum_val2(rs.drop_last()) + rs.last().valoracion2_cents
    }
}

pub open spec fn fits_i64(v: int) -> bool {
    i64::MIN <= v <= i64::MAX
}

/// Every running total of both valuations fits in an `i64`.
pub open spec fn sums_fit(rs: Seq<Tipo2View>) -> bool {
    forall|k: int|
        0 <= k <= rs.len() ==> fits_i64(#[trigger] sum_val1(rs.take(k))) && fits_i64(
            sum_val2(rs.take(k)),
        )
}

/// A file of `n` Tipo 2 records can be held and encoded in memory: its
/// `n + 1` lines of 502 characters, at most 4 bytes each, leave room for
/// the encoder's worst case.
pub open spec fn file_fits(n: int) -> bool {
    (n + 1) * 2008 <= usize::MAX / 64
}

/// The lines that `generate_file` writes for `t1` and `rs`: the Tipo 1
/// record with the count and sums of the Tipo 2 records, then those records.
pub open spec fn file_lines_of(t1: Tipo1View, rs: Seq<Tipo2View>) -> Seq<Seq<char>> {
    let ej = padded(t1.ejercicio, 4);
    let nif = padded(t1.nif_declarante, 9);
    seq![t1_line(t1, ej, nif, rs.len(), sum_val1(rs), sum_val2(rs))] + rs.map_values(
        |r: Tipo2View| t2_line(ej, nif, r),
    )
}

/// The bytes that `generate_file` produces for `t1` and `rs`.
pub open spec fn generated(t1: Tipo1View, rs: Seq<Tipo2View>) -> Seq<u8> {
    win1252_encode(file_text(file_lines_of(t1, rs)))
}

pub proof fn lemma_t1_line_len(t1: Tipo1View, ej: Seq<char>, nif: Seq<char>, total: nat, sum1: int, sum2: int)
    ensures
        t1_line(t1, ej, nif, total, sum1, sum2).len() == 500,
{
    reveal(t1_line);
    reveal_strlit("720");
    lemma_zero_filled_len(t1.num_dec_anterior, 13);
}

pub proof fn lemma_t2_line_len(ej: Seq<char>, nif: Seq<char>, r: Tipo2View)
    ensures
        t2_line(ej, nif, r).len() == 500,
{
    reveal(t2_line);
    reveal_strlit("720");
}

/// Every line that `generate_file` writes has 500 characters.
pub proof fn lemma_file_lines_len(t1: Tipo1View, rs: Seq<Tipo2View>)
    ensures
        file_lines_of(t1, rs).len() == rs.len() + 1,
        forall|i: int|
            0 <= i < file_lines_of(t1, rs).len() ==> (#[trigger] file_lines_of(t1, rs)[i]).len()
                == 500,
{
    let ej = padded(t1.ejercicio, 4);
    let nif = padded(t1.nif_declarante, 9);
    lemma_t1_line_len(t1, ej, nif, rs.len(), sum_val1(rs), sum_val2(rs));
    assert forall|i: int| 0 <= i < file_lines_of(t1, rs).len() implies (
    #[trigger] file_lines_of(t1, rs)[i]).len() == 500 by {
        if i > 0 {
            lemma_t2_line_len(ej, nif, rs[i - 1]);
        }
    }
}

pub proof fn lemma_file_text_len(ls: Seq<Seq<char>>)
    requires
        forall|i: int| 0 <= i < ls.len() ==> (#[trigger] ls[i]).len() == 500,
    ensures
        file_text(ls).len() == ls.len() * 502,
    decreases ls.len(),
{
    if ls.len() > 0 {
        let p = ls.drop_last();
        assert forall|i: int| 0 <= i < p.len() implies (#[trigger] p[i]).len() == 500 by {
            assert(p[i] == ls[i]);
        }
        lemma_file_text_len(p);
        assert(ls.last() == ls[ls.len() - 1]);
    }
}

/// Appends `line` and a CRLF to `text`.
fn push_line(text: &mut Vec<char>, line: &str)
    ensures
        final(text)@ == old(text)@ + line@ + seq!['\r', '\n'],
{
    let ghost start = text@;
    let cs = chars_of(line);
    let mut i: usize = 0;
    while i < cs.len()
        invariant
            i <= cs@.len(),
            text@ == start + cs@.take(i as int),
        decreases cs@.len() - i,
    {
        text.push(cs[i]);
        assert(cs@.take(i + 1) =~= cs@.take(i as int).push(cs@[i as int]));
        i += 1;
    }
    assert(cs@.take(cs@.len() as int) =~= line@);
    text.push('\r');
    text.push('\n');
    assert(text@ =~= start + line@ + seq!['\r', '\n']);
}

pub open spec fn string_views(v: Seq<String>) -> Seq<Seq<char>> {
    v.map_values(|s: String| s@)
}

/// The text of a file with the given lines, each followed by CRLF.
fn write_lines(lines: &Vec<String>) -> (text: Vec<char>)
    ensures
        text@ == file_text(string_views(lines@)),
{
    let ghost ls = string_views(lines@);
    let mut text: Vec<char> = Vec::new();
    let mut k: usize = 0;
    while k < lines.len()
        invariant
            k <= lines@.len(),
            ls == string_views(lines@),
            text@ == file_text(ls.take(k as int)),
        decreases lines@.len() - k,
    {
        push_line(&mut text, lines[k].as_str());
        assert(ls.take(k + 1).drop_last() =~= ls.take(k as int));
        assert(ls.take(k + 1).last() == lines@[k as int]@);
        k += 1;
    }
    assert(ls.take(ls.len() as int) =~= ls);
    text
}

/// Build a Modelo 720 file as windows-1252 bytes.
///
/// 1. Encodes each Tipo 2 record into a 500-char line.
/// 2. Computes totals (count, Σval1, Σval2) and puts them in the Tipo 1 record,
///    with the presenter taken from the declarant and the identifying number
///    `7200000000001` when those are left blank.
/// 3. Writes every line followed by CRLF, encoded as windows-1252 (the
///    superset of ISO-8859-1 that the AEAT validator accepts).
pub fn generate_file(t1: &Tipo1Fields, records: &[Tipo2Fields]) -> (out: Vec<u8>)
    requires
        sums_fit(field_views(records@)),
        file_fits(records@.len() as int),
    ensures
        out@ == generated(t1@, field_views(records@)),
{
    let ejercicio = pad_right(t1.ejercicio.as_str(), 4);
    let nif_decl = pad_right(t1.nif_declarante.as_str(), 9);
    let ghost rs = field_views(records@);
    let ghost ej = padded(t1@.ejercicio, 4);
    let ghost nif = padded(t1@.nif_declarante, 9);
    let mut sum_val1_cents: i64 = 0;
    let mut sum_val2_cents: i64 = 0;
    let mut t2_lines: Vec<String> = Vec::new();
    let mut i: usize = 0;
    while i < records.len()
        invariant
            i <= records@.len(),
            rs == field_views(records@),
            sums_fit(rs),
            ejercicio@ == ej,
            nif_decl@ == nif,
            sum_val1_cents == sum_val1(rs.take(i as int)),
            sum_val2_cents == sum_val2(rs.take(i as int)),
            string_views(t2_lines@) == rs.take(i as int).map_values(|r: Tipo2View| t2_line(ej, nif, r)),
        decreases records@.len() - i,
    {
        let rec = &records[i];
        proof {
            assert(rs.take(i + 1).drop_last() =~= rs.take(i as int));
            assert(rs.take(i + 1).last() == rs[i as int]);
            assert(fits_i64(sum_val1(rs.take(i + 1))));
        }
        sum_val1_cents = sum_val1_cents + rec.valoracion1_cents;
        sum_val2_cents = sum_val2_cents + rec.valoracion2_cents;
        let line = build_t2(ejercicio.as_str(), nif_decl.as_str(), rec);
        assert(rec@ == rs[i as int]);
        let ghost before = string_views(t2_lines@);
        t2_lines.push(line);
        assert(string_views(t2_lines@) =~= before.push(line@));
        assert(string_views(t2_lines@) =~= rs.take(i + 1).map_values(|r: Tipo2View| t2_line(ej, nif, r)));
        i += 1;
    }
    assert(rs.take(rs.len() as int) =~= rs);
    let t1_line = build_t1(
        t1,
        ejercicio.as_str(),
        nif_decl.as_str(),
        records.len(),
        sum_val1_cents,
        sum_val2_cents,
    );
    let mut lines: Vec<String> = Vec::new();
    lines.push(t1_line);
    lines.append(&mut t2_lines);
    let ghost all = file_lines_of(t1@, rs);
    assert(string_views(lines@) =~= all);
    let text = write_lines(&lines);
    proof {
        lemma_file_lines_len(t1@, rs);
        lemma_file_text_len(all);
        lemma_utf8_len_bounds(text@);
    }
    let s = string_of(text.as_slice());
    encode_windows_1252(s.as_str())
}

} // verus!
