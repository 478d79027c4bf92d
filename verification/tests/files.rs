use convert_tex::archive::{
    archive_base_name, base_name_of, check_archive_name, choose_archive, ensure_tar_gz,
};
use convert_tex::arguments::parse_arguments;
use convert_tex::error::{usage, ConvertError};
use convert_tex::listing::{
    file_extension, files_with_extension, has_extension, intermediate_files, log_files, DirEntry,
};
use convert_tex::make4ht::{
    make4ht_args, make4ht_outcome, CommandArg, CONFIG_FILE, MAKE4HT_CONFIG,
};
use convert_tex::output::{normalize_single_html, PageStep};
use convert_tex::tex::{
    conventional_file_names, find_main_tex_file, requested_tex_file, MainTexFile,
};

fn entry(name: &str, is_file: bool) -> DirEntry {
    DirEntry { name: name.to_string(), path: format!("dir/{}", name), is_file }
}

fn files(names: &[&str]) -> Vec<DirEntry> {
    names.iter().map(|name| entry(name, true)).collect()
}

fn strings(texts: &[&str]) -> Vec<String> {
    texts.iter().map(|text| text.to_string()).collect()
}

#[test]
fn extensions() {
    for name in ["a.tex", "a.b.tex", ".tex", "a", "a.", "..", "...", "..a", ".a.b", "", ".", "é.ö"] {
        let expected = std::path::Path::new(name).extension().map(|e| e.to_str().unwrap().to_string());
        assert_eq!(file_extension(name), expected, "{:?}", name);
    }
    assert!(has_extension("a.tex", "tex"));
    assert!(!has_extension("a.TEX", "tex"));
    assert!(has_extension("a.", ""));
}

#[test]
fn entries_by_extension() {
    let mut entries = files(&["a.html", "b.css", "c.html", "d.log"]);
    entries.push(entry("e.html", false));
    entries.push(entry("f.log", false));
    assert_eq!(files_with_extension(&entries, "html"), vec![0, 2]);
    assert_eq!(files_with_extension(&entries, "css"), vec![1]);
    assert_eq!(files_with_extension(&entries, "tex"), Vec::<usize>::new());
    assert_eq!(log_files(&entries), vec![3, 5]);
}

#[test]
fn intermediate_files_are_removed() {
    let mut entries = files(&[
        "p.aux", "p.log", "p.xref", "p.4ct", "p.4tc", "p.lg", "p.tmp", "p.dvi", "p.idv", "p.out",
        "p.tex", "p", ".aux", "p.AUX", "p.aux.bak",
    ]);
    entries.push(entry("d.aux", false));
    assert_eq!(intermediate_files(&entries), (0..10).collect::<Vec<usize>>());
}

#[test]
fn no_intermediate_files_are_left() {
    let names = ["p.html", "p.aux", "p.css", "p.out", "p.log"];
    assert_eq!(intermediate_files(&files(&names)), vec![1, 3, 4]);
    assert_eq!(intermediate_files(&files(&["p.css", "p.html"])), Vec::<usize>::new());
}

#[test]
fn directory_and_trailing_slash_do_not_matter() {
    for path in ["p.tar.gz", "a/p.tar.gz", "/a/b/p.tar.gz", "./p.tar.gz", "../p.tar.gz", "a/p.tar.gz/"] {
        assert_eq!(archive_base_name(path).ok(), Some("p".to_string()), "{:?}", path);
    }
}

#[test]
fn archive_names() {
    assert!(ensure_tar_gz("sources/arXiv-1812.00535v3.tar.gz").is_ok());
    assert_eq!(
        archive_base_name("sources/arXiv-1812.00535v3.tar.gz").unwrap(),
        "arXiv-1812.00535v3"
    );
    assert_eq!(archive_base_name("x.tar.gz").unwrap(), "x");
    assert_eq!(archive_base_name("/a//x.tar.gz/.").unwrap(), "x");
    assert_eq!(archive_base_name("a.tar.gz/b.tar.gz/").unwrap(), "b");
    assert_eq!(archive_base_name("./é.tar.gz").unwrap(), "é");
    assert_eq!(
        archive_base_name("sources/arXiv:1812.00535v3.tar.gz").unwrap(),
        "arXiv:1812.00535v3"
    );
    assert!(ensure_tar_gz("sources/arXiv:1812.00535v3.tar.gz").is_ok());
    assert_eq!(choose_archive("ab:c/d:e.tar.gz", true).unwrap(), "d:e");
}

#[test]
fn archive_names_that_are_refused() {
    let error = ensure_tar_gz("dir/x.zip").unwrap_err();
    assert_eq!(error.message(), "archive must end with .tar.gz: dir/x.zip");
    let error = archive_base_name("dir/x.zip").unwrap_err();
    assert_eq!(error.message(), "archive must end with .tar.gz: dir/x.zip");
    let error = ensure_tar_gz("dir/..").unwrap_err();
    assert_eq!(error.message(), "invalid archive file name: dir/..");
    for path in ["", "/", ".", "..", "a/.."] {
        let error = archive_base_name(path).unwrap_err();
        assert_eq!(error.message(), format!("invalid archive file name: {}", path));
    }
    assert!(ensure_tar_gz("dir/.tar.gz").is_ok());
    let error = archive_base_name("dir/.tar.gz").unwrap_err();
    assert_eq!(error.message(), "empty archive base name: dir/.tar.gz");
}

#[test]
fn file_name_is_base_name_and_suffix() {
    for base in ["a", "paper.v1", ".tar.gz", " "] {
        let name = Some(format!("{}.tar.gz", base));
        assert!(check_archive_name(&name, "p").is_ok());
        assert_eq!(base_name_of(&name, "p").unwrap(), base);
    }
    assert!(check_archive_name(&None, "p").is_err());
    assert!(base_name_of(&Some("tar.gz".to_string()), "p").is_err());
}

#[test]
fn archive_must_be_there() {
    assert_eq!(choose_archive("s/x.tar.gz", true).unwrap(), "x");
    assert_eq!(
        choose_archive("s/x.zip", false).unwrap_err().message(),
        "archive not found: s/x.zip"
    );
    assert_eq!(
        choose_archive("s/x.zip", true).unwrap_err().message(),
        "archive must end with .tar.gz: s/x.zip"
    );
    assert_eq!(
        choose_archive("s/.tar.gz", true).unwrap_err().message(),
        "empty archive base name: s/.tar.gz"
    );
}

#[test]
fn conventional_names_come_first() {
    assert_eq!(
        conventional_file_names(),
        strings(&[
            "main.tex", "0-main.tex", "example_paper.tex", "paper.tex", "article.tex",
            "manuscript.tex", "ms.tex",
        ])
    );
    let entries = files(&["a.tex", "b.tex"]);
    for i in 0..7 {
        let mut present = vec![false; 7];
        present[i] = true;
        present[6] = true;
        assert_eq!(
            find_main_tex_file("work/x", &present, &entries).unwrap(),
            MainTexFile::Conventional(i)
        );
    }
}

#[test]
fn only_tex_file_is_the_main_one() {
    let mut entries = files(&["a.bib", "b.tex", "c.sty"]);
    entries.push(entry("d.tex", false));
    assert_eq!(
        find_main_tex_file("work/x", &vec![false; 7], &entries).unwrap(),
        MainTexFile::Found(1)
    );
}

#[test]
fn no_tex_file() {
    let error = find_main_tex_file("work/x", &vec![false; 7], &files(&["a.bib"])).unwrap_err();
    assert_eq!(error.message(), "no .tex file found under work/x");
    assert_eq!(error.details(), Vec::<String>::new());
}

#[test]
fn several_tex_files() {
    let entries = files(&["a.tex", "b.bib", "c.tex"]);
    let error = find_main_tex_file("work/x", &vec![false; 7], &entries).unwrap_err();
    assert_eq!(error.message(), "specify the main TeX file as the second argument");
    assert_eq!(
        error.details(),
        strings(&[
            "Multiple .tex files found and no conventional main file was selected:",
            "Looked for these top-level names:",
            "  main.tex",
            "  0-main.tex",
            "  example_paper.tex",
            "  paper.tex",
            "  article.tex",
            "  manuscript.tex",
            "  ms.tex",
            "",
            "Found .tex files:",
            "  dir/a.tex",
            "  dir/c.tex",
        ])
    );
}

#[test]
fn requested_tex_files() {
    assert_eq!(requested_tex_file("src/m.tex", "work/x/src/m.tex", true).unwrap(), "src/m.tex");
    let error = requested_tex_file("src/m.tex", "work/x/src/m.tex", false).unwrap_err();
    assert_eq!(error.message(), "TeX file not found: work/x/src/m.tex");
}

#[test]
fn index_page() {
    let page = |names: &[&str], exists: bool| normalize_single_html("dist/x", &files(names), exists);
    assert_eq!(page(&["index.html", "a.css"], true).unwrap(), vec![]);
    assert_eq!(page(&["a.css", "main.html"], false).unwrap(), vec![PageStep::RenameToIndex(1)]);
    assert_eq!(
        page(&["main.html"], true).unwrap(),
        vec![PageStep::RemoveIndex, PageStep::RenameToIndex(0)]
    );
}

#[test]
fn no_steps_are_left() {
    let mut entries = files(&["a.css", "main.html"]);
    entries.push(entry("index.html", false));
    assert_eq!(
        normalize_single_html("dist/x", &entries, true).unwrap(),
        vec![PageStep::RemoveIndex, PageStep::RenameToIndex(1)]
    );
    let after = files(&["index.html", "a.css"]);
    assert_eq!(normalize_single_html("dist/x", &after, true).unwrap(), vec![]);
}

#[test]
fn no_page() {
    let error = normalize_single_html("dist/x", &files(&["a.css"]), false).unwrap_err();
    assert_eq!(error.message(), "no HTML file generated under dist/x");
}

#[test]
fn several_pages() {
    let entries = files(&["a.html", "index.html"]);
    let error = normalize_single_html("dist/x", &entries, true).unwrap_err();
    assert_eq!(
        error.message(),
        "make4ht generated multiple HTML files; the current config did not fully prevent splitting"
    );
    assert_eq!(
        error.details(),
        strings(&[
            "Expected exactly one HTML file, but found 2:",
            "  dir/a.html",
            "  dir/index.html",
        ])
    );
}

#[test]
fn command_line_of_make4ht() {
    let shown: Vec<String> = make4ht_args()
        .iter()
        .map(|arg| match arg {
            CommandArg::Text(text) => text.clone(),
            CommandArg::OutputDir => "OUT".to_string(),
            CommandArg::TexFile => "TEX".to_string(),
        })
        .collect();
    assert_eq!(
        shown,
        strings(&["-d", "OUT", "-c", "make4ht-single.cfg", "TEX", "html5,mathjax,fn-in"])
    );
    assert_eq!(CONFIG_FILE, "make4ht-single.cfg");
    assert!(MAKE4HT_CONFIG.starts_with("\\Preamble{xhtml}\n\n\\Configure{CutAt}{}\n"));
    assert!(MAKE4HT_CONFIG.ends_with("\\begin{document}\n\\EndPreamble\n"));
}

#[test]
fn outcome_of_make4ht() {
    assert!(make4ht_outcome(true, "exit status: 0").is_ok());
    let error = make4ht_outcome(false, "exit status: 1").unwrap_err();
    assert_eq!(error.message(), "make4ht failed with status: exit status: 1");
}

#[test]
fn arguments() {
    let asked = parse_arguments(&strings(&["prog", "a.tar.gz"])).unwrap();
    assert_eq!(asked.archive, "a.tar.gz");
    assert_eq!(asked.main_tex, None);
    let asked = parse_arguments(&strings(&["prog", "a.tar.gz", "m.tex"])).unwrap();
    assert_eq!(asked.main_tex, Some("m.tex".to_string()));
}

#[test]
fn wrong_number_of_arguments() {
    for args in [strings(&["prog"]), strings(&["prog", "a", "b", "c"])] {
        let error = parse_arguments(&args).unwrap_err();
        assert_eq!(error.message(), "invalid arguments");
        assert_eq!(error.details(), vec![usage("prog")]);
    }
}

#[test]
fn usage_names_the_program() {
    assert_eq!(
        usage("conv"),
        "Usage:
  conv <sources/archive.tar.gz> [main.tex]

Examples:
  conv sources/arXiv-1812.00535v3.tar.gz
  conv sources/arXiv-1812.00535v3.tar.gz main.tex
  conv sources/arXiv-1812.00535v3.tar.gz src/main.tex

Output:
  work/<archive-name>/
  dist/<archive-name>/index.html"
    );
}

#[test]
fn messages_of_plain_errors_have_no_details() {
    let error = ConvertError::NotTarGz { path: "x".to_string() };
    assert_eq!(error.details(), Vec::<String>::new());
}
