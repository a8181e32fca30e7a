use resident_engine::args::Args;
use resident_engine::palette::{section_accent, Accent};

#[test]
fn default_args() {
    let a = Args::default();
    assert_eq!(a.title, "Resident");
    assert_eq!((a.width, a.height, a.no_vsync), (1280, 720, false));
}

#[test]
fn accents_cycle() {
    let rows: Vec<Accent> = (0..6).map(section_accent).collect();
    assert_eq!(
        rows,
        vec![
            Accent::Coral,
            Accent::Teal,
            Accent::Blue,
            Accent::Purple,
            Accent::Coral,
            Accent::Teal
        ]
    );
}
