use typhon::tools::{
    line_count, CreateFileTool, FileError, ListDirArgs, ListDirError, ListDirTool, ReadFileArgs,
    ReadFileError, ReadFileTool,
};

fn args(start: Option<usize>, end: Option<usize>) -> ReadFileArgs {
    ReadFileArgs {
        path: "f.txt".to_string(),
        start_line: start,
        end_line: end,
    }
}

#[test]
fn tool_names() {
    assert_eq!(CreateFileTool::name(), "crear_archivo");
    assert_eq!(ReadFileTool::name(), "leer_archivo");
    assert_eq!(ListDirTool::name(), "listar_directorio");
    assert!(!CreateFileTool.description().is_empty());
    assert!(!ReadFileTool.description().is_empty());
    assert!(!ListDirTool.description().is_empty());
}

#[test]
fn created_file_message() {
    assert_eq!(
        CreateFileTool::created_message("/tmp/nota.txt"),
        "Archivo '/tmp/nota.txt' creado de forma exitosa."
    );
}

#[test]
fn error_messages_of_each_tool() {
    assert_eq!(
        FileError("No such file".to_string()).message(),
        "Error de archivo: No such file"
    );
    assert_eq!(
        ReadFileError("denied".to_string()).message(),
        "Error al leer archivo: denied"
    );
    assert_eq!(
        ListDirError("gone".to_string()).message(),
        "Error al listar directorio: gone"
    );
}

#[test]
fn whole_file_without_range() {
    let content = "Línea 1\nLínea 2\nLínea 3\n";
    assert_eq!(ReadFileTool::answer(&args(None, None), content), content);
}

#[test]
fn slice_of_lines() {
    let content = "Uno\nDos\nTres\nCuatro\n";
    assert_eq!(ReadFileTool::answer(&args(Some(2), Some(3)), content), "Dos\nTres");
}

#[test]
fn open_ended_ranges() {
    let content = "Uno\nDos\nTres\n";
    assert_eq!(ReadFileTool::answer(&args(Some(2), None), content), "Dos\nTres");
    assert_eq!(ReadFileTool::answer(&args(None, Some(1)), content), "Uno");
    assert_eq!(ReadFileTool::answer(&args(Some(0), Some(1)), content), "Uno");
    assert_eq!(ReadFileTool::answer(&args(Some(1), Some(99)), content), "Uno\nDos\nTres");
}

#[test]
fn carriage_returns_before_line_feeds_are_dropped() {
    let content = "a\r\nb\r\nc\r";
    assert_eq!(ReadFileTool::answer(&args(Some(1), None), content), "a\nb\nc\r");
    assert_eq!(line_count(content), 3);
}

#[test]
fn invalid_ranges_are_reported() {
    let content = "Uno\nDos\n";
    assert_eq!(
        ReadFileTool::answer(&args(Some(5), None), content),
        "[Rango inválido: el archivo 'f.txt' tiene 2 líneas, se solicitó de 5 a 2]"
    );
    assert_eq!(
        ReadFileTool::answer(&args(Some(2), Some(1)), content),
        "[Rango inválido: el archivo 'f.txt' tiene 2 líneas, se solicitó de 2 a 1]"
    );
    assert_eq!(
        ReadFileTool::answer(&args(Some(1), Some(1)), ""),
        "[Rango inválido: el archivo 'f.txt' tiene 0 líneas, se solicitó de 1 a 0]"
    );
}

#[test]
fn single_line_is_that_line() {
    let content = "x\ny\nz";
    for (n, want) in [(1usize, "x"), (2, "y"), (3, "z")] {
        assert_eq!(ReadFileTool::answer(&args(Some(n), Some(n)), content), want);
    }
}

#[test]
fn line_counts() {
    assert_eq!(line_count(""), 0);
    assert_eq!(line_count("\n"), 1);
    assert_eq!(line_count("a\n\nb"), 3);
    assert_eq!(line_count("a\n"), 1);
}

#[test]
fn listing_default_directory() {
    assert_eq!(ListDirArgs { path: None }.dir_path(), ".");
    assert_eq!(
        ListDirArgs {
            path: Some("./src".to_string())
        }
        .dir_path(),
        "./src"
    );
}

#[test]
fn listing_sorts_directories_and_files() {
    let entries = vec![
        ("zeta.txt".to_string(), false),
        ("src".to_string(), true),
        ("Cargo.toml".to_string(), false),
        ("a-b".to_string(), true),
        ("a".to_string(), true),
    ];
    let text = ListDirTool::listing(".", entries);
    assert_eq!(
        text,
        "Directorio '.':\n📁 Subdirectorios:\n  - a-b/\n  - a/\n  - src/\n📄 Archivos:\n  - Cargo.toml\n  - zeta.txt\n"
    );
}

#[test]
fn listing_of_an_empty_directory() {
    assert_eq!(
        ListDirTool::listing("/vacio", Vec::new()),
        "Directorio '/vacio':\n📁 Subdirectorios:\n  (Ninguno)\n📄 Archivos:\n  (Ninguno)\n"
    );
}

#[test]
fn listing_orders_like_byte_strings() {
    let names = ["é", "z", "Z", "ab", "a", "b"];
    let entries: Vec<(String, bool)> = names.iter().map(|n| (n.to_string(), false)).collect();
    let text = ListDirTool::listing("d", entries);
    let mut sorted: Vec<String> = names.iter().map(|n| n.to_string()).collect();
    sorted.sort();
    let mut want = "Directorio 'd':\n📁 Subdirectorios:\n  (Ninguno)\n📄 Archivos:\n".to_string();
    for n in &sorted {
        want.push_str(&format!("  - {}\n", n));
    }
    assert_eq!(text, want);
}
