use validator720::editor::{
    add_row, apply_import, drop_row, find_row, move_down, move_up, new_record, number_rows, remove_row,
    set_origen, set_tipo_bien, set_tipo_declaracion, subclave_options, tipo_declaracion,
    BIEN_INMUEBLE, BIEN_VALORES,
};
use validator720::{Tipo1Fields, Tipo2Fields};

fn rows(ids: &[u64]) -> Vec<(u64, Tipo2Fields)> {
    ids.iter()
        .map(|&id| (id, Tipo2Fields { num_valores: id, ..Default::default() }))
        .collect()
}

fn ids(rows: &[(u64, Tipo2Fields)]) -> Vec<u64> {
    rows.iter().map(|(id, _)| *id).collect()
}

#[test]
fn asset_type_change_resets_dependent_fields() {
    let mut r = Tipo2Fields {
        clave_identificacion: '1',
        identificacion_valores: "US0378331005".to_string(),
        ..Default::default()
    };
    set_tipo_bien(&mut r, BIEN_VALORES);
    assert_eq!(r.clave_tipo_bien, 'V');
    assert_eq!(r.subclave, '1');
    assert_eq!(r.clave_id_cuenta, ' ');
    assert_eq!(r.clave_represent_valores, 'A');
    assert_eq!(r.clave_tipo_inmueble, ' ');
    assert_eq!(r.clave_identificacion, '1');
    assert_eq!(r.identificacion_valores, "US0378331005");
    set_tipo_bien(&mut r, 'I');
    assert_eq!(r.subclave, '0');
    set_tipo_bien(&mut r, BIEN_INMUEBLE);
    assert_eq!(r.clave_tipo_inmueble, 'U');
    assert_eq!(r.clave_represent_valores, ' ');
    assert_eq!(r.clave_identificacion, '0');
    assert_eq!(r.identificacion_valores, "");
    set_tipo_bien(&mut r, 'C');
    assert_eq!(r.clave_id_cuenta, 'I');
    assert_eq!(r.clave_tipo_inmueble, ' ');
}

#[test]
fn origin_change_resets_extinction_date() {
    let mut r = Tipo2Fields { fecha_extincion: "20241231".to_string(), ..Default::default() };
    set_origen(&mut r, 'C');
    assert_eq!(r.origen, 'C');
    assert_eq!(r.fecha_extincion, "20241231");
    set_origen(&mut r, 'M');
    assert_eq!(r.origen, 'M');
    assert_eq!(r.fecha_extincion, "00000000");
}

#[test]
fn declaration_type() {
    let mut t1 = Tipo1Fields::default();
    assert_eq!(tipo_declaracion(&t1), "N");
    set_tipo_declaracion(&mut t1, "C");
    assert!(t1.dec_complementaria && !t1.dec_sustitutiva);
    assert_eq!(tipo_declaracion(&t1), "C");
    set_tipo_declaracion(&mut t1, "S");
    assert!(!t1.dec_complementaria && t1.dec_sustitutiva);
    assert_eq!(tipo_declaracion(&t1), "S");
    set_tipo_declaracion(&mut t1, "N");
    assert!(!t1.dec_complementaria && !t1.dec_sustitutiva);
    t1.dec_complementaria = true;
    t1.dec_sustitutiva = true;
    assert_eq!(tipo_declaracion(&t1), "S");
}

#[test]
fn subtypes_per_asset_type() {
    let c = subclave_options('C');
    assert_eq!(c.len(), 5);
    assert_eq!(c[0], ('1', "Cuenta corriente"));
    assert_eq!(c[4], ('5', "Otras cuentas"));
    assert_eq!(subclave_options('I'), vec![('0', "Participaciones en IIC")]);
    assert_eq!(subclave_options('S').len(), 2);
    assert_eq!(subclave_options('B')[2], ('3', "Derecho de usufructo"));
    assert_eq!(subclave_options('Q'), vec![('1', "Otro")]);
}

#[test]
fn new_records_start_on_new_year() {
    let r = new_record("2025");
    assert_eq!(r.fecha_incorporacion, "20250101");
    assert_eq!(r.clave_tipo_bien, 'C');
    assert_eq!(r.fecha_extincion, "00000000");
}

#[test]
fn rows_move_up_and_down() {
    let mut v = rows(&[1, 2, 3]);
    move_up(&mut v, 3);
    assert_eq!(ids(&v), vec![1, 3, 2]);
    move_up(&mut v, 1);
    assert_eq!(ids(&v), vec![1, 3, 2]);
    move_down(&mut v, 1);
    assert_eq!(ids(&v), vec![3, 1, 2]);
    move_down(&mut v, 2);
    assert_eq!(ids(&v), vec![3, 1, 2]);
    move_down(&mut v, 9);
    assert_eq!(ids(&v), vec![3, 1, 2]);
    assert_eq!(v[1].1.num_valores, 1);
}

#[test]
fn rows_drag_and_drop() {
    let mut v = rows(&[1, 2, 3, 4]);
    drop_row(&mut v, 1, 3);
    assert_eq!(ids(&v), vec![2, 1, 3, 4]);
    drop_row(&mut v, 4, 2);
    assert_eq!(ids(&v), vec![4, 2, 1, 3]);
    drop_row(&mut v, 4, 4);
    assert_eq!(ids(&v), vec![4, 2, 1, 3]);
    drop_row(&mut v, 7, 4);
    assert_eq!(ids(&v), vec![4, 2, 1, 3]);
}

#[test]
fn rows_remove_add_and_number() {
    let mut v = rows(&[1, 2, 1, 3]);
    remove_row(&mut v, 1);
    assert_eq!(ids(&v), vec![2, 3]);
    let mut next = 10;
    add_row(&mut v, &mut next, "2023");
    assert_eq!(ids(&v), vec![2, 3, 10]);
    assert_eq!(next, 11);
    assert_eq!(v[2].1.fecha_incorporacion, "20230101");
    assert_eq!(find_row(&v, 3), Some(1));
    assert_eq!(find_row(&v, 4), None);
    let (numbered, after) = number_rows(vec![Tipo2Fields::default(), new_record("2024")], 5);
    assert_eq!(ids(&numbered), vec![5, 6]);
    assert_eq!(after, 7);
    assert_eq!(numbered[1].1.fecha_incorporacion, "20240101");
}

fn distinct_and_below(rows: &[(u64, Tipo2Fields)], next: u64) -> bool {
    let v = ids(rows);
    v.iter().all(|&id| id < next)
        && v.iter().enumerate().all(|(i, a)| v.iter().skip(i + 1).all(|b| a != b))
}

#[test]
fn row_ids_never_repeat() {
    let mut t1 = Tipo1Fields::default();
    let mut v: Vec<(u64, Tipo2Fields)> = Vec::new();
    let mut next = 0u64;
    for _ in 0..4 {
        add_row(&mut v, &mut next, "2024");
        assert!(distinct_and_below(&v, next));
    }
    move_up(&mut v, 2);
    move_down(&mut v, 0);
    drop_row(&mut v, 3, 1);
    remove_row(&mut v, 1);
    assert!(distinct_and_below(&v, next));
    add_row(&mut v, &mut next, "2024");
    assert_eq!(ids(&v).last(), Some(&4));
    assert!(distinct_and_below(&v, next));
    let imported = vec![new_record("2023"), new_record("2023")];
    apply_import(&mut t1, &mut v, &mut next, Ok((Tipo1Fields { ejercicio: "2023".to_string(), ..Default::default() }, imported)));
    assert_eq!(ids(&v), vec![5, 6]);
    assert_eq!(next, 7);
    assert_eq!(t1.ejercicio, "2023");
    assert!(distinct_and_below(&v, next));
}

#[test]
fn failed_import_changes_nothing() {
    let mut t1 = Tipo1Fields { ejercicio: "2024".to_string(), ..Default::default() };
    let mut v = rows(&[3, 4]);
    let mut next = 5u64;
    apply_import(&mut t1, &mut v, &mut next, Err("Fichero vacío".to_string()));
    assert_eq!(t1.ejercicio, "2024");
    assert_eq!(ids(&v), vec![3, 4]);
    assert_eq!(v[1].1.num_valores, 4);
    assert_eq!(next, 5);
}
