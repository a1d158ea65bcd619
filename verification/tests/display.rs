use validator720::display::{clave_label, date_to_html, format_fecha, html_to_date};

#[test]
fn clave_labels() {
    assert_eq!(clave_label('C'), ("C", "badge-info"));
    assert_eq!(clave_label('V'), ("V", "badge-secondary"));
    assert_eq!(clave_label('I'), ("I", "badge-accent"));
    assert_eq!(clave_label('S'), ("S", "badge-warning"));
    assert_eq!(clave_label('B'), ("B", "badge-success"));
    assert_eq!(clave_label('x'), ("?", "badge-ghost"));
}

#[test]
fn fechas_for_display() {
    assert_eq!(format_fecha("20240131"), "2024-01-31");
    assert_eq!(format_fecha("00000000"), "—");
    assert_eq!(format_fecha("2024013"), "—");
    assert_eq!(format_fecha("ABCDEFGH"), "ABCD-EF-GH");
    // eight bytes, with a two-byte character before the cuts
    assert_eq!(format_fecha("ñ12345X"), "ñ12-34-5X");
}

#[test]
fn dates_for_inputs() {
    assert_eq!(date_to_html("20240131"), "2024-01-31");
    assert_eq!(date_to_html("00000000"), "");
    assert_eq!(date_to_html("2024013A"), "");
    assert_eq!(html_to_date("2024-01-31"), "20240131");
    assert_eq!(html_to_date(""), "00000000");
    assert_eq!(html_to_date("2024-1-31"), "00000000");
}

use validator720::display::{origen_code, severity_style, sort_details, status_badge, SortCol, Status};
use validator720::{Severity, T2Detail};

fn detail(line: usize, bien: char, sub: char, pais: &str, fecha: &str, origen: char, v1: i64, v2: i64) -> T2Detail {
    T2Detail {
        line,
        nif_declarado: "12345678Z".to_string(),
        nombre_declarado: "NOMBRE".to_string(),
        clave_bien: bien,
        subclave: sub,
        codigo_pais: pais.to_string(),
        fecha_incorporacion: fecha.to_string(),
        origen,
        valoracion1_cents: v1,
        valoracion2_cents: v2,
    }
}

fn lines(v: &[T2Detail]) -> Vec<usize> {
    v.iter().map(|d| d.line).collect()
}

fn table() -> Vec<T2Detail> {
    vec![
        detail(2, 'V', '2', "US", "20240101", 'A', 500, 0),
        detail(3, 'C', '1', "CH", "20230615", 'M', -100, 7),
        detail(4, 'V', '1', "CH", "20240101", 'A', 500, 3),
        detail(5, 'B', '3', "ES", "20220101", 'C', 0, 7),
    ]
}

#[test]
fn records_sort_by_each_column() {
    let mut v = table();
    sort_details(&mut v, SortCol::Bien, true);
    assert_eq!(lines(&v), vec![5, 3, 4, 2]);
    sort_details(&mut v, SortCol::Line, true);
    assert_eq!(lines(&v), vec![2, 3, 4, 5]);
    sort_details(&mut v, SortCol::Pais, true);
    assert_eq!(lines(&v), vec![3, 4, 5, 2]);
    sort_details(&mut v, SortCol::Fecha, true);
    assert_eq!(lines(&v), vec![5, 3, 4, 2]);
    sort_details(&mut v, SortCol::Origen, true);
    assert_eq!(lines(&v), vec![4, 2, 5, 3]);
    sort_details(&mut v, SortCol::Line, true);
    sort_details(&mut v, SortCol::Val1, true);
    assert_eq!(lines(&v), vec![3, 5, 2, 4]);
    sort_details(&mut v, SortCol::Val2, false);
    assert_eq!(lines(&v), vec![3, 5, 4, 2]);
}

#[test]
fn descending_sort_keeps_ties_in_order() {
    let mut v = table();
    sort_details(&mut v, SortCol::Val1, false);
    assert_eq!(lines(&v), vec![2, 4, 5, 3]);
    sort_details(&mut v, SortCol::Line, false);
    assert_eq!(lines(&v), vec![5, 4, 3, 2]);
    let mut empty: Vec<T2Detail> = Vec::new();
    sort_details(&mut empty, SortCol::Pais, true);
    assert!(empty.is_empty());
}

#[test]
fn status_and_styles() {
    assert_eq!(status_badge(true, 0, 0), Status::ValidClean);
    assert_eq!(status_badge(true, 0, 2), Status::ValidWithWarnings(2));
    assert_eq!(status_badge(false, 3, 2), Status::Invalid(3));
    assert_eq!(severity_style(Severity::Fatal).0, "bg-error/10");
    assert_eq!(severity_style(Severity::Warning).1, "badge badge-info badge-sm font-mono");
    assert_eq!(origen_code('M'), "M");
    assert_eq!(origen_code('x'), "?");
}

#[test]
fn eight_digit_dates_survive_the_date_input() {
    for d in ["20240315", "00000000", "19991231", "12345678", "00010101"] {
        assert_eq!(html_to_date(&date_to_html(d)), d);
    }
}
