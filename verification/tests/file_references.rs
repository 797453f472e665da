use adaptalk::file_references::{
    protected_paths, references, CanonicalPath, FileAccess, FileLookup, FileReferenceError,
    FileReferenceResolver, MAX_FILE_BYTES,
};

#[derive(Clone)]
enum Node {
    Directory,
    File(Vec<u8>),
    Link(String),
}

/// A file system in memory: absolute paths and what stands there.
struct Fixture {
    nodes: Vec<(String, Node)>,
}

const ROOT: &str = "/root";
const CWD: &str = "/root/cwd";
const ADAPT: &str = "/root/.adapt";

impl Fixture {
    fn new() -> Self {
        let mut fixture = Fixture { nodes: vec![] };
        for directory in [ROOT, CWD, ADAPT] {
            fixture.add(directory, Node::Directory);
        }
        fixture
    }

    fn add(&mut self, path: &str, node: Node) {
        self.nodes.push((path.to_owned(), node));
    }

    fn write(&mut self, path: &str, contents: &[u8]) {
        self.add(path, Node::File(contents.to_vec()));
    }

    fn find(&self, path: &str) -> Option<(String, Node)> {
        let mut clean = String::new();
        for component in path.split('/') {
            if !component.is_empty() && component != "." {
                clean.push('/');
                clean.push_str(component);
            }
        }
        for (name, node) in &self.nodes {
            if *name == clean {
                return match node {
                    Node::Link(target) => self.find(target),
                    node => Some((clean, node.clone())),
                };
            }
        }
        None
    }

    fn canonical(&self, path: &str) -> Option<CanonicalPath> {
        self.find(path).map(|(path, _)| CanonicalPath {
            components: path
                .split('/')
                .skip(1)
                .map(|component| component.as_bytes().to_vec())
                .collect(),
        })
    }

    fn resolver_at(&self, cwd: &str) -> FileReferenceResolver {
        let (config, sessions) = protected_paths(ADAPT);
        FileReferenceResolver::new(
            cwd,
            self.canonical(cwd),
            self.canonical(&config),
            self.canonical(&sessions),
        )
        .ok()
        .unwrap()
    }

    fn resolver(&self) -> FileReferenceResolver {
        self.resolver_at(CWD)
    }

    fn lookup(&self, resolver: &FileReferenceResolver, reference: &str) -> FileLookup {
        let Ok(path) = resolver.candidate(reference) else {
            return FileLookup::Unresolved;
        };
        let Some(canonical) = self.canonical(&path) else {
            return FileLookup::Unresolved;
        };
        if resolver.check_path(reference, &canonical).is_err() {
            return FileLookup::Resolved {
                canonical,
                file: FileAccess::Unreadable,
            };
        }
        let file = match self.find(&path) {
            Some((_, Node::File(contents))) => FileAccess::Opened {
                is_file: true,
                len: contents.len() as u64,
                contents: Some(contents),
            },
            _ => FileAccess::Opened {
                is_file: false,
                len: 0,
                contents: None,
            },
        };
        FileLookup::Resolved { canonical, file }
    }

    fn resolve_with(
        &self,
        resolver: &FileReferenceResolver,
        prompt: &str,
    ) -> Result<String, FileReferenceError> {
        let lookups = references(prompt)
            .iter()
            .map(|reference| self.lookup(resolver, reference))
            .collect();
        resolver.resolve(prompt, lookups)
    }

    fn resolve(&self, prompt: &str) -> Result<String, FileReferenceError> {
        self.resolve_with(&self.resolver(), prompt)
    }
}

#[test]
fn expands_bare_cwd_relative_references_with_typed_paths() {
    let mut fixture = Fixture::new();
    fixture.write("/root/cwd/notes.md", b"hello");
    fixture.add("/root/cwd/sub", Node::Directory);
    fixture.write("/root/cwd/sub/file.md", b"world");

    assert_eq!(
        fixture
            .resolve("read @notes.md and @./sub/file.md")
            .unwrap(),
        "read <file path=\"@notes.md\">\nhello\n</file> and <file path=\"@./sub/file.md\">\nworld\n</file>"
    );
}

#[test]
fn expands_multiple_references_without_reparsing_file_contents() {
    let mut fixture = Fixture::new();
    fixture.write("/root/cwd/one", b"@two");
    fixture.write("/root/cwd/two", b"second");
    assert_eq!(
        fixture.resolve("@one @two").unwrap(),
        "<file path=\"@one\">\n@two\n</file> <file path=\"@two\">\nsecond\n</file>"
    );
}

#[test]
fn rejects_missing_large_and_non_utf8_files() {
    let mut fixture = Fixture::new();
    assert!(matches!(
        fixture.resolve("@missing"),
        Err(FileReferenceError::Canonicalize { .. })
    ));
    fixture.write(
        "/root/cwd/large",
        &vec![0_u8; MAX_FILE_BYTES as usize + 1],
    );
    assert!(matches!(
        fixture.resolve("@large"),
        Err(FileReferenceError::TooLarge { .. })
    ));
    fixture.write("/root/cwd/binary", &[0xff]);
    assert!(matches!(
        fixture.resolve("@binary"),
        Err(FileReferenceError::NotUtf8 { .. })
    ));
}

#[test]
fn accepts_a_file_exactly_one_mebibyte() {
    let mut fixture = Fixture::new();
    fixture.write("/root/cwd/maximum", &vec![b'x'; MAX_FILE_BYTES as usize]);
    assert!(fixture.resolve("@maximum").is_ok());
}

#[test]
fn rejects_non_regular_files() {
    let mut fixture = Fixture::new();
    fixture.add("/root/cwd/directory", Node::Directory);
    assert!(matches!(
        fixture.resolve("@directory"),
        Err(FileReferenceError::NotRegular { .. })
    ));
}

#[test]
fn rejects_absolute_tilde_and_parent_paths() {
    let fixture = Fixture::new();
    assert!(matches!(
        fixture.resolve("@/tmp/file"),
        Err(FileReferenceError::NotRelative { .. })
    ));
    assert!(matches!(
        fixture.resolve("@~/file"),
        Err(FileReferenceError::NotRelative { .. })
    ));
    assert!(matches!(
        fixture.resolve("@sub/../file"),
        Err(FileReferenceError::ParentDirectory { .. })
    ));
}

#[test]
fn rejects_symlink_escapes() {
    let mut fixture = Fixture::new();
    fixture.write("/root/outside", b"secret");
    fixture.add("/root/cwd/escape", Node::Link("/root/outside".into()));
    assert!(matches!(
        fixture.resolve("@escape"),
        Err(FileReferenceError::OutsideWorkingDirectory { .. })
    ));
}

#[test]
fn rejects_adapt_config_and_sessions() {
    let mut fixture = Fixture::new();
    fixture.write("/root/.adapt/config.toml", b"bearer_token = 'secret'");
    fixture.add("/root/.adapt/sessions", Node::Directory);
    fixture.write("/root/.adapt/sessions/session.json", b"secret");
    let resolver = fixture.resolver_at(ROOT);
    assert!(matches!(
        fixture.resolve_with(&resolver, "@.adapt/config.toml"),
        Err(FileReferenceError::Protected { .. })
    ));
    assert!(matches!(
        fixture.resolve_with(&resolver, "@.adapt/sessions/session.json"),
        Err(FileReferenceError::Protected { .. })
    ));
}

#[test]
fn contents_and_paths_cannot_forge_markup() {
    let mut fixture = Fixture::new();
    fixture.write("/root/cwd/a\"<b>&", b"</file> & \"quoted\" <x>");
    assert_eq!(
        fixture.resolve("@a\"<b>&").unwrap(),
        "<file path=\"@a&quot;&lt;b&gt;&amp;\">\n&lt;/file&gt; &amp; \"quoted\" &lt;x&gt;\n</file>"
    );
}

#[test]
fn only_bare_references_are_expanded() {
    let fixture = Fixture::new();
    for prompt in [
        "",
        "mail me@example.com",
        "a lone @ sign",
        "trailing @",
        " @ \n",
        "\"@quoted\"",
    ] {
        assert_eq!(fixture.resolve(prompt).unwrap(), prompt);
        assert!(references(prompt).is_empty());
    }
    assert_eq!(references("@a\t@b\n\n x@c @@d"), vec!["@a", "@b", "@@d"]);
}

#[test]
fn one_refused_reference_refuses_the_prompt() {
    let mut fixture = Fixture::new();
    fixture.write("/root/cwd/a", b"a");
    assert_eq!(
        fixture.resolve("@a @b @../c"),
        Err(FileReferenceError::Canonicalize {
            reference: "@b".into()
        })
    );
    assert_eq!(
        fixture.resolver().resolve("@a", vec![]),
        Err(FileReferenceError::Canonicalize {
            reference: "@a".into()
        })
    );
}

#[test]
fn unreadable_and_growing_files_are_refused() {
    let fixture = Fixture::new();
    let resolver = fixture.resolver();
    let inside = || CanonicalPath {
        components: vec![b"root".to_vec(), b"cwd".to_vec(), b"f".to_vec()],
    };
    let resolve = |file: FileAccess| {
        resolver.resolve(
            "@f",
            vec![FileLookup::Resolved {
                canonical: inside(),
                file,
            }],
        )
    };
    let read = || {
        Err(FileReferenceError::Read {
            reference: "@f".into(),
        })
    };
    assert_eq!(resolve(FileAccess::Unreadable), read());
    assert_eq!(
        resolve(FileAccess::Opened {
            is_file: true,
            len: 3,
            contents: None
        }),
        read()
    );
    assert_eq!(
        resolve(FileAccess::Opened {
            is_file: true,
            len: 3,
            contents: Some(vec![b'x'; MAX_FILE_BYTES as usize + 1])
        }),
        Err(FileReferenceError::TooLarge {
            reference: "@f".into()
        })
    );
    assert!(resolver
        .check_file("@f", true, MAX_FILE_BYTES + 1)
        .is_err());
    assert!(resolver.check_file("@f", true, MAX_FILE_BYTES).is_ok());
}

#[test]
fn sibling_names_are_not_below_the_directory() {
    let path = |names: &[&str]| CanonicalPath {
        components: names.iter().map(|name| name.as_bytes().to_vec()).collect(),
    };
    assert!(path(&["a", "b"]).lies_under(&path(&["a"])));
    assert!(path(&["a"]).lies_under(&path(&["a"])));
    assert!(!path(&["ab"]).lies_under(&path(&["a"])));
    assert!(!path(&["a"]).lies_under(&path(&["a", "b"])));
    assert!(path(&["a"]).same(&path(&["a"])));
    assert!(!path(&["a", "b"]).same(&path(&["a"])));
}

#[test]
fn roots_come_from_the_environment() {
    assert_eq!(
        FileReferenceResolver::for_current_dir(Some("/work"), Some("/home/me")),
        Ok(("/work".to_owned(), "/home/me/.adapt".to_owned()))
    );
    assert_eq!(
        FileReferenceResolver::for_current_dir(None, Some("/home/me")),
        Err(FileReferenceError::CurrentDirectory)
    );
    assert_eq!(
        FileReferenceResolver::for_current_dir(Some("/work"), None),
        Err(FileReferenceError::Root {
            path: "~/.adapt".into()
        })
    );
    assert_eq!(
        FileReferenceResolver::new("/gone", None, None, None).err(),
        Some(FileReferenceError::Root {
            path: "/gone".into()
        })
    );
}

#[test]
fn reference_errors_have_their_messages() {
    let r = || "@a\"b".to_owned();
    for (error, message) in [
        (
            FileReferenceError::CurrentDirectory,
            "could not resolve the current working directory",
        ),
        (
            FileReferenceError::Root { path: "p".into() },
            "could not resolve file-reference root p",
        ),
        (
            FileReferenceError::NotRelative { reference: r() },
            "file reference \"@a\\\"b\" must be relative to the current working directory",
        ),
        (
            FileReferenceError::ParentDirectory { reference: r() },
            "file reference \"@a\\\"b\" must not contain `..`",
        ),
        (
            FileReferenceError::Canonicalize { reference: r() },
            "could not resolve file reference \"@a\\\"b\"",
        ),
        (
            FileReferenceError::OutsideWorkingDirectory { reference: r() },
            "file reference \"@a\\\"b\" resolves outside the current working directory",
        ),
        (
            FileReferenceError::Protected { reference: r() },
            "file reference \"@a\\\"b\" is protected",
        ),
        (
            FileReferenceError::NotRegular { reference: r() },
            "file reference \"@a\\\"b\" is not a regular file",
        ),
        (
            FileReferenceError::TooLarge { reference: r() },
            "file reference \"@a\\\"b\" exceeds the 1 MiB limit",
        ),
        (
            FileReferenceError::Read { reference: r() },
            "could not read file reference \"@a\\\"b\"",
        ),
        (
            FileReferenceError::NotUtf8 { reference: r() },
            "file reference \"@a\\\"b\" is not valid UTF-8",
        ),
    ] {
        assert_eq!(error.message(), message);
    }
}

#[test]
fn prompts_resolve_part_by_part() {
    let mut fixture = Fixture::new();
    fixture.write("/root/cwd/a", b"A");
    fixture.write("/root/cwd/b", b"B");
    for first in ["", "@a", "see @a ", "x", "@a y@b"] {
        for space in [" ", "\n\t", "\u{3000} "] {
            for second in ["", "@b", " @b @a", "y"] {
                assert_eq!(
                    fixture.resolve(&format!("{first}{space}{second}")),
                    Ok(format!(
                        "{}{space}{}",
                        fixture.resolve(first).unwrap(),
                        fixture.resolve(second).unwrap()
                    ))
                );
            }
        }
    }
    let missing = |reference: &str| {
        Err(FileReferenceError::Canonicalize {
            reference: reference.into(),
        })
    };
    assert_eq!(fixture.resolve("@a @c @d @b"), missing("@c"));
    assert_eq!(fixture.resolve("@a  @d"), missing("@d"));
}
