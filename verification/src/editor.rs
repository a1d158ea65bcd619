//! Decisions of the record editor: the defaults that follow a change of
//! asset type or origin, the declaration type, the subtypes offered for an
//! asset type, and adding, moving and removing rows.
use vstd::prelude::*;
use vstd::string::*;
use crate::generator::{default_t2, Tipo1Fields, Tipo1View, Tipo2Fields, Tipo2View};
use crate::text::chars_of;

verus! {

// ── Codes ────────────────────────────────────────────────────────────────────

/// CLAVE_TIPO_BIEN: bank account.
pub const BIEN_CUENTA: char = 'C';
/// CLAVE_TIPO_BIEN: securities.
pub const BIEN_VALORES: char = 'V';
/// CLAVE_TIPO_BIEN: collective investment undertaking.
pub const BIEN_IIC: char = 'I';
/// CLAVE_TIPO_BIEN: insurance or annuity.
pub const BIEN_SEGURO: char = 'S';
/// CLAVE_TIPO_BIEN: real estate.
pub const BIEN_INMUEBLE: char = 'B';

/// ORIGEN: first declared.
pub const ORIGEN_ALTA: char = 'A';
/// ORIGEN: already declared, changed.
pub const ORIGEN_MODIFICACION: char = 'M';
/// ORIGEN: extinguished.
pub const ORIGEN_CANCELACION: char = 'C';

/// CLAVE_IDENTIFICACION: no identification.
pub const ID_VALORES_NINGUNA: char = '0';
/// CLAVE_IDENTIFICACION: ISIN.
pub const ID_VALORES_ISIN: char = '1';
/// CLAVE_IDENTIFICACION: another identification.
pub const ID_VALORES_OTRO: char = '2';

/// CLAVE_ID_CUENTA: IBAN.
pub const CUENTA_IBAN: char = 'I';
/// CLAVE_ID_CUENTA: another account code.
pub const CUENTA_OTRO: char = 'O';

/// CLAVE_REPRESENT_VALORES: registered securities.
pub const REPR_NOMINATIVOS: char = 'A';
/// CLAVE_REPRESENT_VALORES: bearer securities.
pub const REPR_AL_PORTADOR: char = 'B';

/// CLAVE_TIPO_INMUEBLE: urban.
pub const INMUEBLE_URBANO: char = 'U';
/// CLAVE_TIPO_INMUEBLE: rural.
pub const INMUEBLE_RUSTICO: char = 'R';

// ── Field changes ────────────────────────────────────────────────────────────

pub open spec fn is_securities(c: char) -> bool {
    c == BIEN_VALORES || c == BIEN_IIC
}

/// A record after its asset type is set to `c`: the subtype, account key,
/// representation key and property type reset to the defaults of `c`, and
/// the securities identification cleared unless `c` is a kind of
/// securities.
pub open spec fn with_tipo_bien(r: Tipo2View, c: char) -> Tipo2View {
    Tipo2View {
        clave_tipo_bien: c,
        subclave: if c == BIEN_IIC {
            '0'
        } else {
            '1'
        },
        clave_id_cuenta: if c == BIEN_CUENTA {
            CUENTA_IBAN
        } else {
            ' '
        },
        clave_represent_valores: if is_securities(c) {
            REPR_NOMINATIVOS
        } else {
            ' '
        },
        clave_tipo_inmueble: if c == BIEN_INMUEBLE {
            INMUEBLE_URBANO
        } else {
            ' '
        },
        clave_identificacion: if is_securities(c) {
            r.clave_identificacion
        } else {
            ID_VALORES_NINGUNA
        },
        identificacion_valores: if is_securities(c) {
            r.identificacion_valores
        } else {
            Seq::empty()
        },
        ..r
    }
}

/// Sets the asset type of a record and resets the fields that depend on it.
pub fn set_tipo_bien(r: &mut Tipo2Fields, c: char)
    ensures
        final(r)@ == with_tipo_bien(old(r)@, c),
{
    r.clave_tipo_bien = c;
    r.subclave = if c == BIEN_IIC {
        '0'
    } else {
        '1'
    };
    r.clave_id_cuenta = if c == BIEN_CUENTA {
        CUENTA_IBAN
    } else {
        ' '
    };
    let securities = c == BIEN_VALORES || c == BIEN_IIC;
    r.clave_represent_valores = if securities {
        REPR_NOMINATIVOS
    } else {
        ' '
    };
    r.clave_tipo_inmueble = if c == BIEN_INMUEBLE {
        INMUEBLE_URBANO
    } else {
        ' '
    };
    if !securities {
        r.clave_identificacion = ID_VALORES_NINGUNA;
        r.identificacion_valores = String::new();
    }
}

/// A record after its origin is set to `c`: the extinction date is reset to
/// `"00000000"` unless the asset was extinguished.
pub open spec fn with_origen(r: Tipo2View, c: char) -> Tipo2View {
    Tipo2View {
        origen: c,
        fecha_extincion: if c != ORIGEN_CANCELACION {
            "00000000"@
        } else {
            r.fecha_extincion
        },
        ..r
    }
}

/// Sets the origin of a record and resets the extinction date when it does
/// not apply.
pub fn set_origen(r: &mut Tipo2Fields, c: char)
    ensures
        final(r)@ == with_origen(old(r)@, c),
{
    r.origen = c;
    if c != ORIGEN_CANCELACION {
        r.fecha_extincion = String::from_str("00000000");
    }
}

/// Setting the asset type: for securities (`'V'`) and investment funds
/// (`'I'`) the representation key becomes `'A'` (registered) and the
/// securities identification (key and ISIN) is kept; for every other type
/// the representation key is blank, the identification key `'0'` (none)
/// and the ISIN empty. The asset type is the one given, the subtype is `'0'`
/// for funds and `'1'` otherwise, the account key is `'I'` (IBAN) for
/// accounts (`'C'`) and blank otherwise, the property type `'U'` for real
/// estate (`'B'`) and blank otherwise; the other fields are untouched.
pub proof fn law_asset_type_change(r: Tipo2View, c: char)
    ensures
        with_tipo_bien(r, c).clave_tipo_bien == c,
        (c == 'V' || c == 'I') ==> {
            &&& with_tipo_bien(r, c).clave_represent_valores == 'A'
            &&& with_tipo_bien(r, c).clave_identificacion == r.clave_identificacion
            &&& with_tipo_bien(r, c).identificacion_valores == r.identificacion_valores
        },
        !(c == 'V' || c == 'I') ==> {
            &&& with_tipo_bien(r, c).clave_represent_valores == ' '
            &&& with_tipo_bien(r, c).clave_identificacion == '0'
            &&& with_tipo_bien(r, c).identificacion_valores == Seq::<char>::empty()
        },
        with_tipo_bien(r, c).subclave == (if c == 'I' { '0' } else { '1' }),
        with_tipo_bien(r, c).clave_id_cuenta == (if c == 'C' { 'I' } else { ' ' }),
        with_tipo_bien(r, c).clave_tipo_inmueble == (if c == 'B' { 'U' } else { ' ' }),
        with_tipo_bien(r, c) == (Tipo2View {
            clave_tipo_bien: with_tipo_bien(r, c).clave_tipo_bien,
            subclave: with_tipo_bien(r, c).subclave,
            clave_id_cuenta: with_tipo_bien(r, c).clave_id_cuenta,
            clave_represent_valores: with_tipo_bien(r, c).clave_represent_valores,
            clave_tipo_inmueble: with_tipo_bien(r, c).clave_tipo_inmueble,
            clave_identificacion: with_tipo_bien(r, c).clave_identificacion,
            identificacion_valores: with_tipo_bien(r, c).identificacion_valores,
            ..r
        }),
{
}

/// Setting the origin: the origin is the one given; for any origin but
/// extinction (`'C'`) the extinction date becomes `"00000000"`, and for `'C'`
/// it is kept. The other fields are untouched.
pub proof fn law_origin_change(r: Tipo2View, c: char)
    ensures
        with_origen(r, c).origen == c,
        c != 'C' ==> with_origen(r, c).fecha_extincion == "00000000"@,
        c == 'C' ==> with_origen(r, c).fecha_extincion == r.fecha_extincion,
        with_origen(r, c) == (Tipo2View {
            origen: with_origen(r, c).origen,
            fecha_extincion: with_origen(r, c).fecha_extincion,
            ..r
        }),
{
}

/// The declaration type shown for `t1`: `"S"` (substitutive), `"C"`
/// (complementary) or `"N"` (normal).
pub open spec fn tipo_declaracion_spec(t1: Tipo1View) -> Seq<char> {
    if t1.dec_sustitutiva {
        "S"@
    } else if t1.dec_complementaria {
        "C"@
    } else {
        "N"@
    }
}

/// The declaration type of `t1`: `"S"`, `"C"` or `"N"`.
pub fn tipo_declaracion(t1: &Tipo1Fields) -> (r: &'static str)
    ensures
        r@ == tipo_declaracion_spec(t1@),
{
    if t1.dec_sustitutiva {
        "S"
    } else if t1.dec_complementaria {
        "C"
    } else {
        "N"
    }
}

/// Sets the declaration type from `"C"` (complementary), `"S"`
/// (substitutive) or anything else (normal).
pub fn set_tipo_declaracion(t1: &mut Tipo1Fields, v: &str)
    ensures
        final(t1)@ == (Tipo1View {
            dec_complementaria: v@ == "C"@,
            dec_sustitutiva: v@ == "S"@,
            ..old(t1)@
        }),
{
    proof {
        reveal_strlit("C");
        reveal_strlit("S");
    }
    let cs = chars_of(v);
    let one = cs.len() == 1;
    let is_c = one && cs[0] == 'C';
    let is_s = one && cs[0] == 'S';
    assert(is_c == (v@ == "C"@)) by {
        if v@ == "C"@ {
            assert(cs@[0] == "C"@[0]);
        }
        if is_c {
            assert(cs@ =~= "C"@);
        }
    }
    assert(is_s == (v@ == "S"@)) by {
        if v@ == "S"@ {
            assert(cs@[0] == "S"@[0]);
        }
        if is_s {
            assert(cs@ =~= "S"@);
        }
    }
    t1.dec_complementaria = is_c;
    t1.dec_sustitutiva = is_s;
}

/// The subtypes (SUBCLAVE) offered for an asset type, with their labels.
pub open spec fn subclave_options_spec(bien: char) -> Seq<(char, Seq<char>)> {
    if bien == BIEN_CUENTA {
        seq![
            ('1', "Cuenta corriente"@),
            ('2', "Cuenta de ahorro"@),
            ('3', "Plazo / depósito"@),
            ('4', "Cuenta de crédito"@),
            ('5', "Otras cuentas"@),
        ]
    } else if bien == BIEN_VALORES {
        seq![
            ('1', "Acciones y otros valores"@),
            ('2', "Acciones en IIC"@),
            ('3', "Otros valores"@),
        ]
    } else if bien == BIEN_IIC {
        seq![('0', "Participaciones en IIC"@)]
    } else if bien == BIEN_SEGURO {
        seq![('1', "Seguro de vida"@), ('2', "Renta temporal o vitalicia"@)]
    } else if bien == BIEN_INMUEBLE {
        seq![
            ('1', "Plena propiedad"@),
            ('2', "Nuda propiedad"@),
            ('3', "Derecho de usufructo"@),
            ('4', "Multipropiedad"@),
            ('5', "Otros derechos reales"@),
        ]
    } else {
        seq![('1', "Otro"@)]
    }
}

pub open spec fn options_view(v: Seq<(char, &'static str)>) -> Seq<(char, Seq<char>)> {
    v.map_values(|o: (char, &'static str)| (o.0, o.1@))
}

/// The subtypes (SUBCLAVE) offered for an asset type, with their labels.
pub fn subclave_options(bien: char) -> (r: Vec<(char, &'static str)>)
    ensures
        options_view(r@) == subclave_options_spec(bien),
{
    let mut v: Vec<(char, &'static str)> = Vec::new();
    if bien == BIEN_CUENTA {
        v.push(('1', "Cuenta corriente"));
        v.push(('2', "Cuenta de ahorro"));
        v.push(('3', "Plazo / depósito"));
        v.push(('4', "Cuenta de crédito"));
        v.push(('5', "Otras cuentas"));
    } else if bien == BIEN_VALORES {
        v.push(('1', "Acciones y otros valores"));
        v.push(('2', "Acciones en IIC"));
        v.push(('3', "Otros valores"));
    } else if bien == BIEN_IIC {
        v.push(('0', "Participaciones en IIC"));
    } else if bien == BIEN_SEGURO {
        v.push(('1', "Seguro de vida"));
        v.push(('2', "Renta temporal o vitalicia"));
    } else if bien == BIEN_INMUEBLE {
        v.push(('1', "Plena propiedad"));
        v.push(('2', "Nuda propiedad"));
        v.push(('3', "Derecho de usufructo"));
        v.push(('4', "Multipropiedad"));
        v.push(('5', "Otros derechos reales"));
    } else {
        v.push(('1', "Otro"));
    }
    assert(options_view(v@) =~= subclave_options_spec(bien));
    v
}

/// A new Tipo 2 record for the year `ejercicio`: the defaults, incorporated
/// on the first of January of that year.
pub open spec fn new_record_spec(ejercicio: Seq<char>) -> Tipo2View {
    Tipo2View { fecha_incorporacion: ejercicio + "0101"@, ..default_t2() }
}

/// A new Tipo 2 record for the year `ejercicio`.
pub fn new_record(ejercicio: &str) -> (r: Tipo2Fields)
    ensures
        r@ == new_record_spec(ejercicio@),
{
    let mut r = Tipo2Fields::default();
    let mut f = String::from_str(ejercicio);
    f.append("0101");
    r.fecha_incorporacion = f;
    r
}

// ── Rows ─────────────────────────────────────────────────────────────────────

/// The editor's rows (stable identifier and record), as plain values.
pub open spec fn rows_view(rows: Seq<(u64, Tipo2Fields)>) -> Seq<(u64, Tipo2View)> {
    rows.map_values(|e: (u64, Tipo2Fields)| (e.0, e.1@))
}

/// Index of the first row from `i` on whose identifier is `id`.
pub open spec fn row_index_from(rows: Seq<(u64, Tipo2View)>, id: u64, i: int) -> Option<int>
    decreases rows.len() - i,
{
    if i < 0 || i >= rows.len() {
        None
    } else if rows[i].0 == id {
        Some(i)
    } else {
        row_index_from(rows, id, i + 1)
    }
}

/// Index of the first row whose identifier is `id`.
pub open spec fn row_index(rows: Seq<(u64, Tipo2View)>, id: u64) -> Option<int> {
    row_index_from(rows, id, 0)
}

proof fn lemma_row_index_from(rows: Seq<(u64, Tipo2View)>, id: u64, i: int)
    requires
        0 <= i,
    ensures
        row_index_from(rows, id, i) matches Some(k) ==> i <= k < rows.len() && rows[k].0 == id,
    decreases rows.len() - i,
{
    if i < rows.len() && rows[i].0 != id {
        lemma_row_index_from(rows, id, i + 1);
    }
}

/// Index of the first row whose identifier is `id`.
pub fn find_row(rows: &Vec<(u64, Tipo2Fields)>, id: u64) -> (r: Option<usize>)
    ensures
        r matches Some(k) ==> row_index(rows_view(rows@), id) == Some(k as int) && k < rows@.len(),
        r is None ==> row_index(rows_view(rows@), id) is None,
{
    let ghost v = rows_view(rows@);
    let mut i: usize = 0;
    while i < rows.len()
        invariant
            i <= rows@.len(),
            v == rows_view(rows@),
            row_index(v, id) == row_index_from(v, id, i as int),
        decreases rows@.len() - i,
    {
        assert(v[i as int].0 == rows@[i as int].0);
        if rows[i].0 == id {
            return Some(i);
        }
        i += 1;
    }
    None
}

/// `s` with the elements at `i` and `j` exchanged.
pub open spec fn swapped<A>(s: Seq<A>, i: int, j: int) -> Seq<A> {
    s.update(i, s[j]).update(j, s[i])
}

/// Exchanges the rows at `i` and `i + 1`.
fn swap_with_next(rows: &mut Vec<(u64, Tipo2Fields)>, i: usize)
    requires
        i + 1 < old(rows)@.len(),
    ensures
        rows_view(final(rows)@) == swapped(rows_view(old(rows)@), i as int, i + 1),
{
    let ghost before = rows_view(rows@);
    assert(i + 1 < rows.len());
    let item = rows.remove(i + 1);
    rows.insert(i, item);
    assert(rows_view(rows@) =~= swapped(before, i as int, i + 1));
}

/// The rows after "move up" on the row `id`: it changes places with the
/// row before it, if any.
pub open spec fn moved_up(rows: Seq<(u64, Tipo2View)>, id: u64) -> Seq<(u64, Tipo2View)> {
    match row_index(rows, id) {
        Some(p) => if p > 0 {
            swapped(rows, p - 1, p)
        } else {
            rows
        },
        None => rows,
    }
}

/// The rows after "move down" on the row `id`: it changes places with the
/// row after it, if any.
pub open spec fn moved_down(rows: Seq<(u64, Tipo2View)>, id: u64) -> Seq<(u64, Tipo2View)> {
    match row_index(rows, id) {
        Some(p) => if p + 1 < rows.len() {
            swapped(rows, p, p + 1)
        } else {
            rows
        },
        None => rows,
    }
}

/// Moves the row `id` one place up.
pub fn move_up(rows: &mut Vec<(u64, Tipo2Fields)>, id: u64)
    ensures
        rows_view(final(rows)@) == moved_up(rows_view(old(rows)@), id),
{
    if let Some(pos) = find_row(rows, id) {
        if pos > 0 {
            swap_with_next(rows, pos - 1);
        }
    }
}

/// Moves the row `id` one place down.
pub fn move_down(rows: &mut Vec<(u64, Tipo2Fields)>, id: u64)
    ensures
        rows_view(final(rows)@) == moved_down(rows_view(old(rows)@), id),
{
    if let Some(pos) = find_row(rows, id) {
        if pos < rows.len() - 1 {
            swap_with_next(rows, pos);
        }
    }
}

/// The rows after dropping the row `src` on the row `dst`: `src` is taken
/// out and put back where `dst` stood (just before it when `src` came from
/// above).
pub open spec fn dropped_on(rows: Seq<(u64, Tipo2View)>, src: u64, dst: u64) -> Seq<
    (u64, Tipo2View),
> {
    if src == dst {
        rows
    } else {
        match (row_index(rows, src), row_index(rows, dst)) {
            (Some(a), Some(b)) => rows.remove(a).insert(
                if a < b {
                    b - 1
                } else {
                    b
                },
                rows[a],
            ),
            _ => rows,
        }
    }
}

/// Drag and drop: moves the row `src` to the place of the row `dst`.
pub fn drop_row(rows: &mut Vec<(u64, Tipo2Fields)>, src: u64, dst: u64)
    ensures
        rows_view(final(rows)@) == dropped_on(rows_view(old(rows)@), src, dst),
{
    if src == dst {
        return;
    }
    let ghost before = rows_view(rows@);
    if let Some(src_pos) = find_row(rows, src) {
        if let Some(dst_pos) = find_row(rows, dst) {
            let item = rows.remove(src_pos);
            let insert_at = if src_pos < dst_pos {
                dst_pos - 1
            } else {
                dst_pos
            };
            rows.insert(insert_at, item);
            assert(rows_view(rows@) =~= before.remove(src_pos as int).insert(
                insert_at as int,
                before[src_pos as int],
            ));
        }
    }
}

/// The rows without those whose identifier is `id`.
pub open spec fn without_row(rows: Seq<(u64, Tipo2View)>, id: u64) -> Seq<(u64, Tipo2View)>
    decreases rows.len(),
{
    if rows.len() == 0 {
        Seq::empty()
    } else if rows.last().0 == id {
        without_row(rows.drop_last(), id)
    } else {
        without_row(rows.drop_last(), id).push(rows.last())
    }
}

/// Removes the row `id`.
pub fn remove_row(rows: &mut Vec<(u64, Tipo2Fields)>, id: u64)
    ensures
        rows_view(final(rows)@) == without_row(rows_view(old(rows)@), id),
{
    let ghost orig = rows_view(rows@);
    let mut rest: Vec<(u64, Tipo2Fields)> = Vec::new();
    core::mem::swap(rows, &mut rest);
    let ghost all = rest@;
    assert(all.len() == rest.len());
    let mut k: usize = 0;
    while rest.len() > 0
        invariant
            all.len() <= usize::MAX,
            all.len() == orig.len(),
            orig == rows_view(all),
            k + rest@.len() == all.len(),
            rest@ == all.skip(k as int),
            rows_view(rows@) == without_row(orig.take(k as int), id),
        decreases rest@.len(),
    {
        let e = rest.remove(0);
        assert(all.skip(k + 1) =~= all.skip(k as int).drop_first());
        assert(orig.take(k + 1).drop_last() =~= orig.take(k as int));
        assert(orig.take(k + 1).last() == (e.0, e.1@));
        if e.0 != id {
            let ghost before = rows_view(rows@);
            rows.push(e);
            assert(rows_view(rows@) =~= before.push((e.0, e.1@)));
        }
        k += 1;
    }
    assert(orig.take(orig.len() as int) =~= orig);
}

/// Rows numbered from `next_id` for `records`, in order.
pub open spec fn numbered(records: Seq<Tipo2View>, next_id: u64) -> Seq<(u64, Tipo2View)> {
    Seq::new(records.len(), |k: int| ((next_id + k) as u64, records[k]))
}

/// Rows for freshly imported records: identifiers `next_id`,
/// `next_id + 1`, … in order, and the next free identifier.
pub fn number_rows(records: Vec<Tipo2Fields>, next_id: u64) -> (r: (Vec<(u64, Tipo2Fields)>, u64))
    requires
        next_id + records@.len() <= u64::MAX,
    ensures
        r.0@.len() == records@.len(),
        forall|k: int|
            0 <= k < records@.len() ==> #[trigger] rows_view(r.0@)[k] == (
                (next_id + k) as u64,
                records@[k]@,
            ),
        r.1 == next_id + records@.len(),
        rows_view(r.0@) == numbered(records@.map_values(|f: Tipo2Fields| f@), next_id),
{
    let ghost all = records@;
    let mut rest = records;
    let mut out: Vec<(u64, Tipo2Fields)> = Vec::new();
    let mut id = next_id;
    while rest.len() > 0
        invariant
            next_id + all.len() <= u64::MAX,
            out@.len() + rest@.len() == all.len(),
            rest@ == all.skip(out@.len() as int),
            id == next_id + out@.len(),
            forall|k: int|
                0 <= k < out@.len() ==> #[trigger] rows_view(out@)[k] == (
                    (next_id + k) as u64,
                    all[k]@,
                ),
        decreases rest@.len(),
    {
        let f = rest.remove(0);
        let ghost n = out@.len();
        assert(f == all[n as int]);
        assert(all.skip(n + 1int) =~= all.skip(n as int).drop_first());
        let ghost before = rows_view(out@);
        out.push((id, f));
        assert(rows_view(out@) =~= before.push((id, f@)));
        id = id + 1;
    }
    assert(rows_view(out@) =~= numbered(all.map_values(|f: Tipo2Fields| f@), next_id));
    (out, id)
}

/// Takes the outcome of an import into the editor: on success the Tipo 1
/// fields are replaced and the rows become the imported records numbered
/// from `*next_id`, which advances past them; on failure nothing changes.
pub fn apply_import(
    t1: &mut Tipo1Fields,
    rows: &mut Vec<(u64, Tipo2Fields)>,
    next_id: &mut u64,
    outcome: Result<(Tipo1Fields, Vec<Tipo2Fields>), String>,
)
    requires
        outcome matches Ok((_, v)) ==> *old(next_id) + v@.len() <= u64::MAX,
    ensures
        match outcome {
            Ok((nt1, v)) => {
                &&& final(t1)@ == nt1@
                &&& rows_view(final(rows)@) == numbered(
                    v@.map_values(|f: Tipo2Fields| f@),
                    *old(next_id),
                )
                &&& *final(next_id) == *old(next_id) + v@.len()
            },
            Err(_) => {
                &&& *final(t1) == *old(t1)
                &&& final(rows)@ == old(rows)@
                &&& *final(next_id) == *old(next_id)
            },
        },
{
    match outcome {
        Ok((nt1, v)) => {
            let (numbered_rows, id) = number_rows(v, *next_id);
            *t1 = nt1;
            *rows = numbered_rows;
            *next_id = id;
        },
        Err(_) => {},
    }
}

/// Appends a new row for the year `ejercicio` with identifier `*next_id`,
/// and advances `*next_id`.
pub fn add_row(rows: &mut Vec<(u64, Tipo2Fields)>, next_id: &mut u64, ejercicio: &str)
    requires
        *old(next_id) < u64::MAX,
    ensures
        rows_view(final(rows)@) == rows_view(old(rows)@).push(
            (*old(next_id), new_record_spec(ejercicio@)),
        ),
        *final(next_id) == *old(next_id) + 1,
{
    let id = *next_id;
    *next_id = id + 1;
    let ghost before = rows_view(rows@);
    rows.push((id, new_record(ejercicio)));
    assert(rows_view(rows@) =~= before.push((id, new_record_spec(ejercicio@))));
}

// ── Row identifiers ──────────────────────────────────────────────────────────

/// The rows' identifiers are pairwise distinct and all below `next_id`, the
/// next identifier the editor hands out.
pub open spec fn ids_fresh(rows: Seq<(u64, Tipo2View)>, next_id: u64) -> bool {
    &&& forall|i: int, j: int|
        0 <= i < rows.len() && 0 <= j < rows.len() && i != j ==> #[trigger] rows[i].0
            != #[trigger] rows[j].0
    &&& forall|i: int| 0 <= i < rows.len() ==> #[trigger] rows[i].0 < next_id
}

/// Rows taken one for one, without repetition, from rows whose identifiers
/// are fresh have fresh identifiers too.
proof fn lemma_fresh_by_map(
    rows: Seq<(u64, Tipo2View)>,
    out: Seq<(u64, Tipo2View)>,
    from: spec_fn(int) -> int,
    next_id: u64,
)
    requires
        ids_fresh(rows, next_id),
        forall|k: int| 0 <= k < out.len() ==> 0 <= #[trigger] from(k) < rows.len() && out[k] == rows[from(k)],
        forall|k: int, l: int|
            0 <= k < out.len() && 0 <= l < out.len() && k != l ==> #[trigger] from(k) != #[trigger] from(l),
    ensures
        ids_fresh(out, next_id),
{
    assert forall|i: int, j: int|
        0 <= i < out.len() && 0 <= j < out.len() && i != j implies #[trigger] out[i].0
            != #[trigger] out[j].0 by {
        assert(from(i) != from(j));
        assert(rows[from(i)].0 != rows[from(j)].0);
    }
    assert forall|i: int| 0 <= i < out.len() implies #[trigger] out[i].0 < next_id by {
        assert(rows[from(i)].0 < next_id);
    }
}

/// Every row left by `without_row` is one of the rows it started from.
proof fn lemma_without_row_sub(rows: Seq<(u64, Tipo2View)>, id: u64)
    ensures
        without_row(rows, id).len() <= rows.len(),
        forall|k: int|
            0 <= k < without_row(rows, id).len() ==> exists|m: int|
                0 <= m < rows.len() && #[trigger] without_row(rows, id)[k] == rows[m],
    decreases rows.len(),
{
    if rows.len() > 0 {
        let p = rows.drop_last();
        lemma_without_row_sub(p, id);
        let w = without_row(rows, id);
        assert forall|k: int| 0 <= k < w.len() implies exists|m: int|
            0 <= m < rows.len() && #[trigger] w[k] == rows[m] by {
            if k < without_row(p, id).len() {
                let m = choose|m: int| 0 <= m < p.len() && without_row(p, id)[k] == p[m];
                assert(w[k] == rows[m]);
            } else {
                assert(w[k] == rows[rows.len() - 1]);
            }
        }
    }
}

proof fn lemma_without_row_fresh(rows: Seq<(u64, Tipo2View)>, id: u64, next_id: u64)
    requires
        ids_fresh(rows, next_id),
    ensures
        ids_fresh(without_row(rows, id), next_id),
    decreases rows.len(),
{
    if rows.len() > 0 {
        let p = rows.drop_last();
        let l = rows.last();
        assert(ids_fresh(p, next_id)) by {
            assert forall|i: int, j: int|
                0 <= i < p.len() && 0 <= j < p.len() && i != j implies #[trigger] p[i].0
                    != #[trigger] p[j].0 by {
                assert(rows[i].0 != rows[j].0);
            }
            assert forall|i: int| 0 <= i < p.len() implies #[trigger] p[i].0 < next_id by {
                assert(rows[i].0 < next_id);
            }
        }
        lemma_without_row_fresh(p, id, next_id);
        lemma_without_row_sub(p, id);
        let w0 = without_row(p, id);
        if l.0 != id {
            let w = w0.push(l);
            assert forall|i: int, j: int|
                0 <= i < w.len() && 0 <= j < w.len() && i != j implies #[trigger] w[i].0
                    != #[trigger] w[j].0 by {
                if i < w0.len() && j < w0.len() {
                    assert(w0[i].0 != w0[j].0);
                } else if i < w0.len() {
                    let m = choose|m: int| 0 <= m < p.len() && w0[i] == p[m];
                    assert(rows[m].0 != rows[rows.len() - 1].0);
                } else {
                    let m = choose|m: int| 0 <= m < p.len() && w0[j] == p[m];
                    assert(rows[m].0 != rows[rows.len() - 1].0);
                }
            }
            assert forall|i: int| 0 <= i < w.len() implies #[trigger] w[i].0 < next_id by {
                if i < w0.len() {
                    assert(w0[i].0 < next_id);
                }
            }
        }
    }
}

/// The editor hands out row identifiers that never repeat: starting from
/// identifiers that are pairwise distinct and below `next_id`, they stay so
/// after adding a record (which takes `next_id` and advances it), moving a
/// row up or down, dropping one row on another, or removing a row; and the
/// rows of an import, numbered from `next_id`, are distinct and below the
/// advanced counter.
pub proof fn law_row_ids_stay_fresh(
    rows: Seq<(u64, Tipo2View)>,
    next_id: u64,
    ejercicio: Seq<char>,
    id: u64,
    src: u64,
    dst: u64,
    records: Seq<Tipo2View>,
)
    requires
        ids_fresh(rows, next_id),
    ensures
        next_id < u64::MAX ==> ids_fresh(
            rows.push((next_id, new_record_spec(ejercicio))),
            (next_id + 1) as u64,
        ),
        ids_fresh(moved_up(rows, id), next_id),
        ids_fresh(moved_down(rows, id), next_id),
        ids_fresh(dropped_on(rows, src, dst), next_id),
        ids_fresh(without_row(rows, id), next_id),
        next_id + records.len() <= u64::MAX ==> ids_fresh(
            numbered(records, next_id),
            (next_id + records.len()) as u64,
        ),
{
    // adding a record
    if next_id < u64::MAX {
        let w = rows.push((next_id, new_record_spec(ejercicio)));
        assert forall|i: int, j: int|
            0 <= i < w.len() && 0 <= j < w.len() && i != j implies #[trigger] w[i].0
                != #[trigger] w[j].0 by {
            if i < rows.len() && j < rows.len() {
                assert(rows[i].0 != rows[j].0);
            } else if i < rows.len() {
                assert(rows[i].0 < next_id);
            } else {
                assert(rows[j].0 < next_id);
            }
        }
        assert forall|i: int| 0 <= i < w.len() implies #[trigger] w[i].0 < (next_id + 1) as u64 by {
            if i < rows.len() {
                assert(rows[i].0 < next_id);
            }
        }
    }
    // moving a row up or down exchanges two rows
    match row_index(rows, id) {
        Some(p) => {
            lemma_row_index_from(rows, id, 0);
            if p > 0 {
                let f = |k: int| if k == p - 1 { p } else if k == p { p - 1 } else { k };
                lemma_fresh_by_map(rows, moved_up(rows, id), f, next_id);
            }
            if p + 1 < rows.len() {
                let f = |k: int| if k == p { p + 1 } else if k == p + 1 { p } else { k };
                lemma_fresh_by_map(rows, moved_down(rows, id), f, next_id);
            }
        },
        None => {},
    }
    // dropping a row on another moves it
    if src != dst {
        match (row_index(rows, src), row_index(rows, dst)) {
            (Some(a), Some(b)) => {
                lemma_row_index_from(rows, src, 0);
                lemma_row_index_from(rows, dst, 0);
                let c = if a < b { b - 1 } else { b };
                let r = rows.remove(a);
                rows.remove_ensures(a);
                r.insert_ensures(c, rows[a]);
                let g = |m: int| if m < a { m } else { m + 1 };
                let f = |k: int| if k < c { g(k) } else if k == c { a } else { g(k - 1) };
                let out = dropped_on(rows, src, dst);
                assert(out == r.insert(c, rows[a]));
                assert forall|k: int| 0 <= k < out.len() implies 0 <= #[trigger] f(k) < rows.len()
                    && out[k] == rows[f(k)] by {
                    if k < c {
                        assert(out[k] == r[k]);
                    } else if k > c {
                        assert(out[(k - 1) + 1] == r[k - 1]);
                    }
                }
                lemma_fresh_by_map(rows, out, f, next_id);
            },
            _ => {},
        }
    }
    // removing a row
    lemma_without_row_fresh(rows, id, next_id);
    // numbering imported records
    if next_id + records.len() <= u64::MAX {
        let w = numbered(records, next_id);
        assert forall|i: int, j: int|
            0 <= i < w.len() && 0 <= j < w.len() && i != j implies #[trigger] w[i].0
                != #[trigger] w[j].0 by {
            assert(w[i].0 == next_id + i);
            assert(w[j].0 == next_id + j);
        }
    }
}

} // verus!
