use hop::import::{
    check_file_size, choose_zoxide, import_autojump, import_dry_run, import_entries, import_fasd,
    import_file, import_visits, import_zoxide, import_zsh, preview_file, Entry, Import,
    ImportError, ImportFile, Probe, Ranked, Visit, MAX_FILE_SIZE,
};

fn file(text: &str) -> ImportFile {
    ImportFile {
        text: text.to_string(),
        data: text.as_bytes().to_vec(),
        ranked: None,
    }
}

fn entry(path: &str, weight: Option<&str>) -> Entry {
    Entry {
        path: path.to_string(),
        weight: weight.map(|w| w.to_string()),
    }
}

fn probe(path: &str, is_dir: bool, weight: Option<i64>) -> Probe {
    Probe {
        path: path.to_string(),
        is_dir,
        weight,
    }
}

fn visit(path: &str, count: i64) -> Visit {
    Visit {
        path: path.to_string(),
        count,
    }
}

fn counts(done: &Import) -> (usize, usize) {
    (done.stats.imported, done.stats.skipped)
}

/// A list of strings in MessagePack.
fn packed(list: &[&str]) -> Vec<u8> {
    let mut data = vec![0x90 + list.len() as u8];
    for s in list {
        data.push(0xa0 + s.len() as u8);
        data.extend_from_slice(s.as_bytes());
    }
    data
}

#[test]
fn large_files_are_refused() {
    assert_eq!(MAX_FILE_SIZE, 50 * 1024 * 1024);
    assert_eq!(check_file_size(0), Ok(()));
    assert_eq!(check_file_size(MAX_FILE_SIZE), Ok(()));
    let error = check_file_size(MAX_FILE_SIZE + 1).unwrap_err();
    assert_eq!(
        error,
        ImportError::FileTooLarge {
            size: 52_428_801,
            max: 52_428_800
        }
    );
    assert_eq!(
        error.message(),
        "import file is 52428801 bytes (max 50 MB); refusing to read to prevent OOM"
    );
    assert_eq!(ImportError::Io("gone".to_string()).message(), "gone");
}

#[test]
fn fasd_lines_hold_path_and_visits() {
    let content = "/a\t12.7\t1700000000\n\n  \n /b \t x\n/c\n\t5\t6\n";
    let entries = import_entries("fasd", &file(content)).unwrap();
    assert_eq!(
        entries,
        vec![
            entry("/a", Some("12.7")),
            entry("/b", Some("x")),
            entry("/c", None),
            entry("", Some("5")),
        ]
    );
    let probes = vec![
        probe("/a", true, Some(12)),
        probe("/b", true, None),
        probe("/c", true, Some(50)),
        probe("", true, Some(5)),
    ];
    let done = import_fasd(content, &probes);
    assert_eq!(
        done.visits,
        vec![visit("/a", 12), visit("/b", 1), visit("/c", 1)]
    );
    assert_eq!(counts(&done), (3, 1));
}

#[test]
fn fasd_visits_stay_between_one_and_a_hundred() {
    for (weight, count) in [(i64::MIN, 1), (-3, 1), (0, 1), (1, 1), (100, 100), (101, 100)] {
        let done = import_fasd("/a\t0", &vec![probe("/a", true, Some(weight))]);
        assert_eq!(done.visits, vec![visit("/a", count)]);
    }
}

#[test]
fn autojump_lines_hold_weight_and_path() {
    let content = "12.5\t/a b\tc\n/d\n7\t\n";
    let entries = import_entries("autojump", &file(content)).unwrap();
    assert_eq!(
        entries,
        vec![
            entry("/a b\tc", Some("12.5")),
            entry("", Some("/d")),
            entry("", Some("7")),
        ]
    );
    let probes = vec![
        probe("/a b\tc", true, Some(12)),
        probe("", false, None),
        probe("", false, Some(7)),
    ];
    let done = import_autojump(content, &probes);
    assert_eq!(done.visits, vec![visit("/a b\tc", 1)]);
    assert_eq!(counts(&done), (1, 2));
}

#[test]
fn autojump_weights_come_in_buckets() {
    for (weight, count) in [
        (None, 1),
        (Some(-5), 1),
        (Some(9), 1),
        (Some(19), 1),
        (Some(20), 2),
        (Some(99), 9),
        (Some(100), 10),
        (Some(5000), 10),
    ] {
        let done = import_autojump("1\t/a", &vec![probe("/a", true, weight)]);
        assert_eq!(done.visits, vec![visit("/a", count)]);
    }
}

#[test]
fn weights_come_to_the_visits_of_their_fractions() {
    for tenths in -20..1100 {
        let weight = tenths as f64 / 10.0;
        let probes = vec![probe("/a", true, Some(weight as i64))];
        let fasd = (weight as i32).clamp(1, 100) as i64;
        assert_eq!(import_fasd("/a\t0", &probes).visits[0].count, fasd);
        let bucket = ((weight.clamp(1.0, 100.0) / 10.0) as i32).max(1) as i64;
        assert_eq!(import_autojump("0\t/a", &probes).visits[0].count, bucket);
    }
}

#[test]
fn zsh_history_counts_each_cd_once() {
    let content = ": 1700000000:0;cd /a\nls\ncd -\npushd '/b c'\ncd /gone\n";
    let entries = import_entries("zsh", &file(content)).unwrap();
    assert_eq!(
        entries,
        vec![entry("/a", None), entry("/b c", None), entry("/gone", None)]
    );
    let probes = vec![
        probe("/a", true, None),
        probe("/b c", true, Some(9)),
        probe("/gone", false, None),
    ];
    let done = import_zsh(content, &probes);
    assert_eq!(done.visits, vec![visit("/a", 1), visit("/b c", 1)]);
    assert_eq!(counts(&done), (2, 1));
}

#[test]
fn zoxide_prefers_ranked_paths() {
    let ranked = Some(vec![
        Ranked {
            path: "/a".to_string(),
            score: 55,
        },
        Ranked {
            path: "/b".to_string(),
            score: 3,
        },
    ]);
    let plain = Some(vec!["/c".to_string()]);
    assert_eq!(
        choose_zoxide(&ranked, &plain),
        vec![visit("/a", 5), visit("/b", 1)]
    );
    assert_eq!(choose_zoxide(&None, &plain), vec![visit("/c", 1)]);
    assert_eq!(choose_zoxide(&None, &None), vec![]);
    let probes = vec![probe("/a", false, None), probe("/b", true, None)];
    let done = import_zoxide(&ranked, &vec![], &probes);
    assert_eq!(done.visits, vec![visit("/b", 1)]);
    assert_eq!(counts(&done), (1, 1));
    let done = import_visits(&vec![visit("~/x", 4)], &vec![probe("/h/x", true, None)]);
    assert_eq!(done.visits, vec![visit("/h/x", 4)]);
}

#[test]
fn zoxide_falls_back_to_a_plain_list() {
    let data = packed(&["/a", "~/b"]);
    let source = ImportFile {
        text: String::new(),
        data: data.clone(),
        ranked: None,
    };
    assert_eq!(
        import_entries("zoxide", &source).unwrap(),
        vec![entry("/a", None), entry("~/b", None)]
    );
    let probes = vec![probe("/a", true, None), probe("/home/b", true, None)];
    let done = import_zoxide(&None, &data, &probes);
    assert_eq!(done.visits, vec![visit("/a", 1), visit("/home/b", 1)]);
    // neither a list of strings nor one of ranked paths
    let broken = ImportFile {
        text: String::new(),
        data: vec![0xc1],
        ranked: None,
    };
    assert_eq!(import_entries("zoxide", &broken).unwrap(), vec![]);
}

#[test]
fn preview_lists_what_is_imported() {
    for (source, content) in [
        ("fasd", "/a\t3\n/b\t4\n/c\n"),
        ("autojump", "30\t/a\n40\t/b\n50\t/c\n"),
        ("zsh", "cd /a\ncd /b\ncd /c\n"),
    ] {
        let input = file(content);
        let probes: Vec<Probe> = import_entries(source, &input)
            .unwrap()
            .iter()
            .map(|e| probe(&e.path, e.path != "/b", Some(30)))
            .collect();
        let done = import_file(source, &input, &probes).unwrap().unwrap();
        let preview = preview_file(source, &input, &probes).unwrap().unwrap();
        assert_eq!(preview, vec!["/a", "/c"]);
        let recorded: Vec<String> = done.visits.iter().map(|v| v.path.clone()).collect();
        assert_eq!(preview, recorded);
        assert_eq!(counts(&done), (2, 1));
        assert_eq!(import_dry_run(source, &input, &probes).unwrap(), preview);
    }
}

#[test]
fn probes_have_to_fit_the_entries() {
    assert_eq!(import_file("fasd", &file("/a\n/b"), &vec![]), Ok(None));
    assert_eq!(preview_file("zsh", &file("cd /a"), &vec![]), Ok(None));
}

#[test]
fn unknown_source_is_an_error() {
    let error = ImportError::Io("unknown source: z".to_string());
    assert_eq!(import_entries("z", &file("")).unwrap_err(), error);
    assert_eq!(import_file("z", &file(""), &vec![]), Err(error.clone()));
    assert_eq!(import_dry_run("z", &file(""), &vec![]), Err(error));
}
