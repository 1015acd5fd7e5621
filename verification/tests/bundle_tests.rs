use srcbundler::bundle::{
    bundle, bundle_files, label_of, push_section, record_of, Bundle, BundleError, FileRecord,
    Listing, SkipReason, Skipped, SourceFile,
};
use srcbundler::minify::minify_code;

fn exts(list: &[&str]) -> Vec<String> {
    list.iter().map(|s| s.to_string()).collect()
}

fn file(path: &str, content: Option<&str>) -> SourceFile {
    SourceFile {
        components: path.split('/').map(|s| s.to_string()).collect(),
        content: content.map(|s| s.to_string()),
    }
}

fn tree() -> Vec<SourceFile> {
    vec![
        file("index.js", Some("function add(a, b) {\n    return a + b;\n}\n")),
        file("README.md", Some("# readme\n")),
        file("styles/main.css", Some(".foo > p {\n color: red;\n}\n")),
        file("lib/broken.ts", None),
        file("lib/util/héllo.ts", Some("let é = 1;\n")),
        file("Makefile", Some("all:\n")),
    ]
}

#[test]
fn bundle_text_and_counts() {
    let b = bundle(&Listing::Found(tree()), &exts(&["js", "ts", "css"]), false).unwrap();
    assert_eq!(
        b.text().as_str(),
        "``` index.js\nfunction add(a,b){return a+b;}\n```\n\
         ``` styles/main.css\n.foo>p{color:red;}\n```\n\
         ``` lib/util/héllo.ts\nlet é=1;\n```\n"
    );
    assert_eq!(b.total_files(), 3);
    assert_eq!(b.total_chars(), 30 + 18 + 8);
}

#[test]
fn bundle_with_comments_kept() {
    let files = vec![file("a.js", Some("  // c  \n  let a = 1;  \n\n"))];
    let b = bundle(&Listing::Found(files), &exts(&["js"]), true).unwrap();
    assert_eq!(b.text().as_str(), "``` a.js\n  // c  \nlet a = 1;\n\n```\n");
    assert_eq!(b.total_files(), 1);
    assert_eq!(b.total_chars(), 20);
}

#[test]
fn bundle_of_missing_root_is_an_error() {
    let r = bundle(&Listing::Missing, &exts(&["js"]), false);
    assert!(matches!(r, Err(BundleError::DirectoryNotFound)));
    let r = bundle(&Listing::Missing, &Vec::new(), true);
    assert!(matches!(r, Err(BundleError::DirectoryNotFound)));
}

#[test]
fn bundle_of_empty_root_is_empty() {
    let b = bundle(&Listing::Found(Vec::new()), &exts(&["js"]), false).unwrap();
    assert_eq!(b.text().as_str(), "");
    assert_eq!(b.total_files(), 0);
    assert_eq!(b.total_chars(), 0);
}

#[test]
fn files_of_other_extensions_get_no_section() {
    let b = bundle_files(&tree(), &exts(&["css"]), false);
    assert_eq!(b.text().as_str(), "``` styles/main.css\n.foo>p{color:red;}\n```\n");
    assert_eq!(b.total_files(), 1);
    assert!(!b.text().contains("index.js"));
    assert!(!b.text().contains("README"));
    assert!(!b.text().contains("Makefile"));
    let with = bundle_files(&tree(), &exts(&["js", "ts"]), true);
    let mut fewer = tree();
    fewer.retain(|f| {
        let name = f.components.last().unwrap();
        name.ends_with(".js") || name.ends_with(".ts")
    });
    let without = bundle_files(&fewer, &exts(&["js", "ts"]), true);
    assert_eq!(with.text(), without.text());
    assert_eq!(with.total_files(), without.total_files());
    assert_eq!(with.total_chars(), without.total_chars());
}

#[test]
fn files_that_could_not_be_read_get_no_section() {
    let b = bundle_files(&vec![file("a.js", None), file("b.js", Some("b"))], &exts(&["js"]), false);
    assert_eq!(b.text().as_str(), "``` b.js\nb\n```\n");
    assert_eq!(b.total_files(), 1);
}

#[test]
fn total_chars_counts_minified_characters() {
    let contents = ["let  é  =  'ü';\n", "  // 越\n\n  x  \n", ".a  {  b : c ; }"];
    let names = ["a.js", "b.ts", "c.css"];
    for retain in [false, true] {
        let files: Vec<SourceFile> =
            names.iter().zip(contents.iter()).map(|(n, c)| file(n, Some(c))).collect();
        let b = bundle_files(&files, &exts(&["js", "ts", "css"]), retain);
        let mut sum = 0;
        for (n, c) in names.iter().zip(contents.iter()) {
            let ext = n.rsplit('.').next().unwrap();
            sum += minify_code(c, retain, ext).chars().count();
        }
        assert_eq!(b.total_chars(), sum);
        assert_eq!(b.total_files(), 3);
        let unminified: usize = contents.iter().map(|c| c.chars().count()).sum();
        assert!(b.total_chars() < unminified);
    }
}

#[test]
fn two_runs_give_the_same_bundle() {
    for retain in [false, true] {
        let first = bundle(&Listing::Found(tree()), &exts(&["js", "ts", "css"]), retain).unwrap();
        let second = bundle(&Listing::Found(tree()), &exts(&["js", "ts", "css"]), retain).unwrap();
        assert_eq!(first.text(), second.text());
        assert_eq!(first.total_files(), second.total_files());
        assert_eq!(first.total_chars(), second.total_chars());
    }
}

#[test]
fn sections_follow_the_order_of_the_walk() {
    let b = bundle_files(
        &vec![file("z.js", Some("z")), file("a.js", Some("a")), file("m.js", Some("m"))],
        &exts(&["js"]),
        false,
    );
    assert_eq!(b.text().as_str(), "``` z.js\nz\n```\n``` a.js\na\n```\n``` m.js\nm\n```\n");
}

#[test]
fn malformed_style_is_bundled_as_it_is() {
    let b = bundle_files(&vec![file("x.css", Some("a { b: c; } }"))], &exts(&["css"]), false);
    assert_eq!(b.text().as_str(), "``` x.css\na { b: c; } }\n```\n");
    assert_eq!(b.total_chars(), 13);
}

#[test]
fn record_of_examples() {
    let set = exts(&["js"]);
    let r = record_of(&file("src/a.js", Some("a  =  1;")), &set, false).unwrap();
    assert_eq!(r.relative_path().as_str(), "src/a.js");
    assert_eq!(r.content().as_str(), "a=1;");
    assert_eq!(r.char_count(), 4);
    assert!(matches!(
        record_of(&file("src/a.ts", Some("a")), &set, false),
        Err(SkipReason::ExtensionNotListed)
    ));
    assert!(matches!(
        record_of(&file("src/a.ts", None), &set, false),
        Err(SkipReason::ExtensionNotListed)
    ));
    assert!(matches!(
        record_of(&file("src/Makefile", Some("a")), &set, false),
        Err(SkipReason::ExtensionNotListed)
    ));
    assert!(matches!(record_of(&file("src/a.js", None), &set, false), Err(SkipReason::Unreadable)));
    let nameless = SourceFile { components: Vec::new(), content: Some("a".to_string()) };
    assert!(matches!(record_of(&nameless, &set, false), Err(SkipReason::ExtensionNotListed)));
}

#[test]
fn file_record_counts_characters() {
    let r = FileRecord::new("p".to_string(), "héllo 越".to_string());
    assert_eq!(r.char_count(), 7);
    assert_eq!(FileRecord::new(String::new(), String::new()).char_count(), 0);
}

#[test]
fn bundle_add_appends_and_counts() {
    let mut b = Bundle::new();
    b.add(&FileRecord::new("a/b.js".to_string(), "x=1;".to_string()));
    assert_eq!(b.text().as_str(), "``` a/b.js\nx=1;\n```\n");
    assert_eq!((b.total_files(), b.total_chars()), (1, 4));
    b.add(&FileRecord::new("".to_string(), "".to_string()));
    assert_eq!(b.text().as_str(), "``` a/b.js\nx=1;\n```\n``` \n\n```\n");
    assert_eq!((b.total_files(), b.total_chars()), (2, 4));
    assert_eq!(b.into_text(), "``` a/b.js\nx=1;\n```\n``` \n\n```\n");
}

#[test]
fn push_section_format() {
    let mut text = String::from("before\n");
    push_section(&mut text, "dir/f.css", "a{}");
    assert_eq!(text, "before\n``` dir/f.css\na{}\n```\n");
}

#[test]
fn label_joins_with_forward_slashes() {
    assert_eq!(label_of(&exts(&["a", "b", "c.js"])), "a/b/c.js");
    assert_eq!(label_of(&exts(&["c.js"])), "c.js");
    assert_eq!(label_of(&exts(&[])), "");
    assert_eq!(label_of(&exts(&["a", "", "b"])), "a//b");
    assert_eq!(label_of(&exts(&["a\\b", "c"])), "a\\b/c");
}

#[test]
fn skipped_files_are_named_with_their_reason() {
    let b = bundle(&Listing::Found(tree()), &exts(&["js", "ts", "css"]), false).unwrap();
    let skip = |path: &str, reason: SkipReason| Skipped { path: path.to_string(), reason };
    assert_eq!(
        b.skipped(),
        &vec![
            skip("README.md", SkipReason::ExtensionNotListed),
            skip("lib/broken.ts", SkipReason::Unreadable),
            skip("Makefile", SkipReason::ExtensionNotListed),
        ]
    );
    assert_eq!(b.skipped().len() + b.total_files(), tree().len());
}

#[test]
fn bundle_skip_notes_without_changing_the_text() {
    let mut b = Bundle::new();
    b.add(&FileRecord::new("a.js".to_string(), "x".to_string()));
    b.skip("b.md".to_string(), SkipReason::ExtensionNotListed);
    assert_eq!(b.text().as_str(), "``` a.js\nx\n```\n");
    assert_eq!((b.total_files(), b.total_chars()), (1, 1));
    assert_eq!(b.skipped().len(), 1);
    assert_eq!(b.skipped()[0].path, "b.md");
    assert_eq!(b.skipped()[0].reason, SkipReason::ExtensionNotListed);
}
