//! The test and plan descriptions that are kept in step with the test files.
use crate::seqs;
use crate::text;
use crate::yaml;
use vstd::prelude::*;

verus! {

/// Opens the part of the plan file that is rewritten.
pub const PLAN_MARKER_BEGIN: &'static str = "# BEGIN GENERATED PLANS\n";

/// Closes the part of the plan file that is rewritten.
pub const PLAN_MARKER_END: &'static str = "# END GENERATED PLANS\n";

/// How many lines of a test file can hold its description.
pub const HEADER_LINES: usize = 50;

/// The description at the head of a test file: its number, and all else as YAML.
pub struct TmtMetadata {
    pub number: u32,
    pub extra: serde_yaml::Value,
}

/// Why a description cannot be read.
pub enum MetadataError {
    InvalidNumber,
    /// The YAML text that does not parse.
    InvalidYaml(String),
}

/// What has been read of a description.
pub struct Header {
    pub number: Option<nat>,
    pub in_block: bool,
    pub yaml: Seq<Seq<char>>,
}

/// Reads the lines from `i` on: a line `# number: N` sets the number, `# tmt:` opens the block,
/// whose lines lose their `#`. The block ends at a bare `#` or a line that is no comment. A number
/// that does not parse spoils the description.
pub open spec fn read_header(lines: Seq<Seq<char>>, i: int, h: Header) -> Option<Header>
    decreases lines.len() - i,
{
    if i >= lines.len() || i >= HEADER_LINES {
        Some(h)
    } else {
        let line = lines[i];
        let t = text::trimmed(line);
        match text::without_prefix(t, "# number:"@) {
            Some(rest) => match text::parsed_unsigned(text::trimmed(rest), u32::MAX as nat) {
                Some(n) => read_header(lines, i + 1, Header { number: Some(n), ..h }),
                None => None,
            },
            None => if t == "# tmt:"@ {
                read_header(lines, i + 1, Header { in_block: true, ..h })
            } else if !h.in_block {
                read_header(lines, i + 1, h)
            } else if !"#"@.is_prefix_of(t) || t == "#"@ {
                Some(h)
            } else {
                match text::without_prefix(line, "#"@) {
                    Some(y) => read_header(lines, i + 1, Header { yaml: h.yaml.push(y), ..h }),
                    None => read_header(lines, i + 1, h),
                }
            },
        }
    }
}

/// The header of a test file.
pub open spec fn header(content: Seq<char>) -> Option<Header> {
    read_header(
        text::lines_of(content),
        0,
        Header { number: None, in_block: false, yaml: Seq::empty() },
    )
}

/// The number and the YAML text of a test file's description; nothing where it gives no number.
pub fn metadata_header(content: &str) -> (r: Result<Option<(u32, String)>, MetadataError>)
    ensures
        match r {
            Ok(Some((n, y))) => header(content@) matches Some(h) && h.number == Some(n as nat)
                && y@ == text::joined(h.yaml, "\n"@),
            Ok(None) => header(content@) matches Some(h) && h.number is None,
            Err(e) => header(content@) is None && e is InvalidNumber,
        },
{
    let lines = text::lines(content);
    let mut number: Option<u32> = None;
    let mut in_block = false;
    let mut yaml_lines: Vec<&str> = Vec::new();
    let mut i: usize = 0;
    let ghost all = text::lines_of(content@);
    assert(text::slice_views(yaml_lines@) =~= Seq::<Seq<char>>::empty());
    while i < lines.len() && i < HEADER_LINES
        invariant_except_break
            i <= lines@.len(),
            i <= HEADER_LINES,
            text::slice_views(lines@) == all,
            header(content@) == read_header(
                all,
                i as int,
                Header {
                    number: match number {
                        Some(n) => Some(n as nat),
                        None => None,
                    },
                    in_block,
                    yaml: text::slice_views(yaml_lines@),
                },
            ),
        ensures
            header(content@) == Some(
                Header {
                    number: match number {
                        Some(n) => Some(n as nat),
                        None => None,
                    },
                    in_block,
                    yaml: text::slice_views(yaml_lines@),
                },
            ),
        decreases lines@.len() - i,
    {
        let line = lines[i];
        assert(all[i as int] == line@);
        let trimmed = text::trim(line);
        match text::strip_prefix(trimmed, "# number:") {
            Some(rest) => {
                match text::parse_unsigned(text::trim(rest), u32::MAX as u64) {
                    Some(n) => {
                        number = Some(n as u32);
                    },
                    None => {
                        return Err(MetadataError::InvalidNumber);
                    },
                }
            },
            None => {
                if text::same(trimmed, "# tmt:") {
                    in_block = true;
                } else if in_block {
                    if !text::starts_with(trimmed, "#") || text::same(trimmed, "#") {
                        break;
                    }
                    match text::strip_prefix(line, "#") {
                        Some(y) => {
                            let ghost before = yaml_lines@;
                            yaml_lines.push(y);
                            assert(text::slice_views(yaml_lines@) =~= text::slice_views(
                                before,
                            ).push(y@));
                        },
                        None => {},
                    }
                }
            },
        }
        i += 1;
    }
    match number {
        Some(n) => Ok(Some((n, text::join(&yaml_lines, "\n")))),
        None => Ok(None),
    }
}

/// The description of a test file: its number and what its YAML holds.
pub open spec fn metadata(content: Seq<char>) -> Option<Option<(nat, yaml::Yaml)>> {
    match header(content) {
        None => None,
        Some(h) => match h.number {
            None => Some(None),
            Some(n) => {
                let y = text::joined(h.yaml, "\n"@);
                if text::trimmed(y).len() == 0 {
                    Some(Some((n, yaml::Yaml::Table(Seq::empty()))))
                } else {
                    match yaml::parsed(y) {
                        Some(v) => Some(Some((n, v))),
                        None => None,
                    }
                }
            },
        },
    }
}

/// Reads the description of a test file; nothing where it gives no number.
pub fn parse_tmt_metadata(content: &str) -> (r: Result<Option<TmtMetadata>, MetadataError>)
    ensures
        match r {
            Ok(Some(m)) => metadata(content@) == Some(
                Some((m.number as nat, yaml::content(m.extra))),
            ),
            Ok(None) => metadata(content@) == Some(None::<(nat, yaml::Yaml)>),
            Err(MetadataError::InvalidNumber) => header(content@) is None,
            Err(MetadataError::InvalidYaml(y)) => metadata(content@) is None && (header(
                content@,
            ) matches Some(h) && y@ == text::joined(h.yaml, "\n"@)),
        },
{
    match metadata_header(content) {
        Err(e) => Err(e),
        Ok(None) => Ok(None),
        Ok(Some((number, y))) => {
            if text::trim(y.as_str()).unicode_len() == 0 {
                Ok(Some(TmtMetadata { number, extra: yaml::table_value(yaml::empty_table()) }))
            } else {
                match yaml::from_str(y.as_str()) {
                    Ok(extra) => Ok(Some(TmtMetadata { number, extra })),
                    Err(_) => Err(MetadataError::InvalidYaml(y)),
                }
            }
        },
    }
}

/// A test: its number and name, the command that runs it, and its attributes.
pub struct TestDef {
    pub number: u32,
    pub name: String,
    pub test_command: String,
    pub extra: serde_yaml::Value,
}

/// What a test is.
pub struct TestModel {
    pub number: nat,
    pub name: Seq<char>,
    pub command: Seq<char>,
    pub extra: yaml::Yaml,
}

impl View for TestDef {
    type V = TestModel;

    open spec fn view(&self) -> TestModel {
        TestModel {
            number: self.number as nat,
            name: self.name@,
            command: self.test_command@,
            extra: yaml::content(self.extra),
        }
    }
}

/// What tests are.
pub open spec fn models(tests: Seq<TestDef>) -> Seq<TestModel> {
    tests.map_values(|t: TestDef| t@)
}

/// The name of a test file without `test-` and its extension; nothing where it is no test file.
pub open spec fn stem_of(filename: Seq<char>) -> Option<Seq<char>> {
    match text::without_prefix(filename, "test-"@) {
        Some(s) => match text::without_suffix(s, ".nu"@) {
            Some(t) => Some(t),
            None => text::without_suffix(s, ".sh"@),
        },
        None => None,
    }
}

/// The name of a test file without `test-` and its extension.
pub fn test_stem(filename: &str) -> (r: Option<&str>)
    ensures
        text::opt_slice_view(r) == stem_of(filename@),
{
    match text::strip_prefix(filename, "test-") {
        Some(s) => match text::strip_suffix(s, ".nu") {
            Some(t) => Some(t),
            None => text::strip_suffix(s, ".sh"),
        },
        None => None,
    }
}

/// Whether a text holds nothing but decimal digits.
pub open spec fn only_digits(s: Seq<char>) -> bool {
    forall|i: int| 0 <= i < s.len() ==> text::is_digit(#[trigger] s[i])
}

/// A stem without a number and a dash in front of it.
pub open spec fn shown_name(stem: Seq<char>) -> Seq<char> {
    match text::split_at_first(stem, "-"@) {
        Some((a, b)) => if only_digits(a) {
            b
        } else {
            stem
        },
        None => stem,
    }
}

/// A stem without a number and a dash in front of it.
pub fn display_name(stem: &str) -> (r: String)
    ensures
        r@ == shown_name(stem@),
{
    match text::split_once(stem, "-") {
        Some((prefix, suffix)) => {
            let v = text::chars_of(prefix);
            let mut i: usize = 0;
            while i < v.len()
                invariant
                    i <= v@.len(),
                    v@ == prefix@,
                    text::split_at_first(stem@, "-"@) == Some((prefix@, suffix@)),
                    forall|j: int| 0 <= j < i ==> text::is_digit(#[trigger] v@[j]),
                decreases v@.len() - i,
            {
                let c = v[i];
                if !('0' <= c && c <= '9') {
                    assert(!text::is_digit(prefix@[i as int]));
                    assert(!only_digits(prefix@));
                    return stem.to_owned();
                }
                i += 1;
            }
            suffix.to_owned()
        },
        None => stem.to_owned(),
    }
}

/// The command that runs a test file.
pub open spec fn command_of(filename: Seq<char>) -> Seq<char> {
    (if ".nu"@.is_suffix_of(filename) {
        "nu"@
    } else {
        "bash"@
    }) + " booted/"@ + filename
}

/// The command that runs a test file; nothing for a file with another extension.
pub fn test_command(filename: &str) -> (r: Option<String>)
    ensures
        text::opt_view(r) == if ".nu"@.is_suffix_of(filename@) || ".sh"@.is_suffix_of(filename@) {
            Some(command_of(filename@))
        } else {
            None
        },
{
    if text::ends_with(filename, ".nu") {
        Some(text::concat3("nu", " booted/", filename))
    } else if text::ends_with(filename, ".sh") {
        Some(text::concat3("bash", " booted/", filename))
    } else {
        None
    }
}

/// Why a test file cannot be taken in.
pub enum TestFileError {
    Metadata(MetadataError),
    MissingMetadata,
    UnsupportedExtension,
}

/// The test in a file; nothing where the file's name is not that of a test.
pub open spec fn test_in(filename: Seq<char>, content: Seq<char>) -> Option<TestModel> {
    match (stem_of(filename), metadata(content)) {
        (Some(stem), Some(Some((number, extra)))) => Some(
            TestModel { number, name: shown_name(stem), command: command_of(filename), extra },
        ),
        _ => None,
    }
}

proof fn lemma_stem_extension(filename: Seq<char>)
    requires
        stem_of(filename) is Some,
    ensures
        ".nu"@.is_suffix_of(filename) || ".sh"@.is_suffix_of(filename),
{
    let s = text::without_prefix(filename, "test-"@).unwrap();
    assert forall|e: Seq<char>| #[trigger] e.is_suffix_of(s) implies e.is_suffix_of(filename) by {
        assert(e =~= filename.subrange(filename.len() - e.len(), filename.len() as int));
    }
}

/// Whether this is what is wrong with a test file.
pub open spec fn is_file_error(e: TestFileError, filename: Seq<char>, content: Seq<char>) -> bool {
    stem_of(filename) is Some && match e {
        TestFileError::Metadata(MetadataError::InvalidNumber) => header(content) is None,
        TestFileError::Metadata(MetadataError::InvalidYaml(y)) => metadata(content) is None && (
        header(content) matches Some(h) && y@ == text::joined(h.yaml, "\n"@)),
        TestFileError::MissingMetadata => metadata(content) == Some(None::<(nat, yaml::Yaml)>),
        TestFileError::UnsupportedExtension => false,
    }
}

/// Takes a test file in.
pub fn define_test(filename: &str, content: &str) -> (r: Result<Option<TestDef>, TestFileError>)
    ensures
        match r {
            Ok(Some(t)) => test_in(filename@, content@) == Some(t@),
            Ok(None) => stem_of(filename@) is None,
            Err(e) => is_file_error(e, filename@, content@),
        },
{
    match test_stem(filename) {
        None => Ok(None),
        Some(stem) => {
            match parse_tmt_metadata(content) {
                Err(e) => Err(TestFileError::Metadata(e)),
                Ok(None) => Err(TestFileError::MissingMetadata),
                Ok(Some(m)) => {
                    proof {
                        lemma_stem_extension(filename@);
                    }
                    match test_command(filename) {
                        Some(test_command) => Ok(
                            Some(
                                TestDef {
                                    number: m.number,
                                    name: display_name(stem),
                                    test_command,
                                    extra: m.extra,
                                },
                            ),
                        ),
                        None => Err(TestFileError::UnsupportedExtension),
                    }
                },
            }
        },
    }
}

/// Whether a test comes before another.
pub open spec fn numbered_before() -> spec_fn(TestModel, TestModel) -> bool {
    |a: TestModel, b: TestModel| a.number < b.number
}

/// The tests in the order of their numbers; those of one number stay in their order.
pub open spec fn in_order(tests: Seq<TestModel>) -> Seq<TestModel> {
    seqs::ordered(tests, numbered_before())
}

/// Puts the tests in the order of their numbers; those of one number stay in their order.
pub fn sort_tests(tests: Vec<TestDef>) -> (r: Vec<TestDef>)
    ensures
        models(r@) == in_order(models(tests@)),
{
    let mut rest = tests;
    let mut queue: Vec<TestDef> = Vec::new();
    let ghost all = models(tests@);
    assert(all.take(all.len() as int) =~= all);
    // Reverse, so that the tests can be taken off the end in their order.
    while rest.len() > 0
        invariant
            models(rest@) + models(queue@).reverse() =~= all,
        decreases rest@.len(),
    {
        let ghost before = rest@;
        let ghost queued = queue@;
        match rest.pop() {
            Some(t) => {
                queue.push(t);
                assert(models(before) =~= models(rest@).push(t@));
                assert(models(queue@) =~= models(queued).push(t@));
                assert(models(queue@).reverse() =~= seq![t@] + models(queued).reverse());
            },
            None => {},
        }
    }
    let mut r: Vec<TestDef> = Vec::new();
    let ghost mut n: int = 0;
    let ghost less = numbered_before();
    assert(all =~= models(queue@).reverse());
    assert(models(r@) =~= seqs::ordered(all.take(0), less));
    while queue.len() > 0
        invariant
            less == numbered_before(),
            0 <= n,
            n + queue@.len() == all.len(),
            models(queue@).reverse() =~= all.skip(n),
            models(r@) == seqs::ordered(all.take(n), less),
        decreases queue@.len(),
    {
        let ghost queued = queue@;
        match queue.pop() {
            Some(t) => {
                proof {
                    assert(models(queued) =~= models(queue@).push(t@));
                    assert(models(queued).reverse() =~= seq![t@] + models(queue@).reverse());
                    assert(all.skip(n)[0] == t@);
                    assert(all.skip(n).drop_first() =~= all.skip(n + 1));
                    assert(models(queue@).reverse() =~= all.skip(n).drop_first());
                    assert(all.take(n + 1).drop_last() =~= all.take(n));
                    assert(all.take(n + 1).last() == t@);
                }
                let ghost placed = models(r@);
                let mut i: usize = 0;
                while i < r.len() && r[i].number <= t.number
                    invariant
                        i <= r@.len(),
                        placed == models(r@),
                        less == numbered_before(),
                        seqs::place(placed, t@, less, 0) == seqs::place(placed, t@, less, i as int),
                    decreases r@.len() - i,
                {
                    assert(placed[i as int] == r@[i as int]@);
                    i += 1;
                }
                proof {
                    if i < r@.len() {
                        assert(placed[i as int] == r@[i as int]@);
                    }
                    assert(seqs::place(placed, t@, less, 0) == i);
                }
                let ghost old_r = r@;
                r.insert(i, t);
                assert(models(r@) =~= models(old_r).insert(i as int, t@));
                proof {
                    n = n + 1;
                }
            },
            None => {},
        }
    }
    assert(all.take(n) =~= all);
    r
}

/// The tests come in the order of their numbers, none is lost or added, and those of one number
/// keep their order.
pub proof fn law_order(tests: Seq<TestModel>, number: nat)
    ensures
        forall|i: int, j: int|
            0 <= i < j < tests.len() ==> (#[trigger] in_order(tests)[i]).number <= (
            #[trigger] in_order(tests)[j]).number,
        in_order(tests).to_multiset() == tests.to_multiset(),
        in_order(tests).filter(|t: TestModel| t.number == number) == tests.filter(
            |t: TestModel| t.number == number,
        ),
{
    let less = numbered_before();
    seqs::lemma_ordered_sorted(tests, less);
    seqs::lemma_ordered_items(tests, less);
    seqs::lemma_ordered_stable(tests, less, |t: TestModel| t.number == number);
    assert forall|i: int, j: int| 0 <= i < j < tests.len() implies (
    #[trigger] in_order(tests)[i]).number <= (#[trigger] in_order(tests)[j]).number by {
        assert(!less(in_order(tests)[j], in_order(tests)[i]));
    }
}

/// A number and a name, as in the keys of tests and plans.
pub open spec fn label(t: TestModel) -> Seq<char> {
    text::decimal2(t.number) + "-"@ + t.name
}

/// The attributes of a test that is a mapping; none of any other.
pub open spec fn attributes(extra: yaml::Yaml) -> Seq<(yaml::Yaml, yaml::Yaml)> {
    match extra {
        yaml::Yaml::Table(t) => t,
        _ => Seq::empty(),
    }
}

/// What is written of a test: its attributes, with the command that runs it.
pub open spec fn test_entry(t: TestModel) -> yaml::Yaml {
    yaml::Yaml::Table(
        yaml::with_entry(
            attributes(t.extra),
            yaml::Yaml::Text("test"@),
            yaml::Yaml::Text(t.command),
        ),
    )
}

/// The table of all tests.
pub open spec fn tests_table(tests: Seq<TestModel>) -> Seq<(yaml::Yaml, yaml::Yaml)>
    decreases tests.len(),
{
    if tests.len() == 0 {
        Seq::empty()
    } else {
        yaml::with_entry(
            tests_table(tests.drop_last()),
            yaml::Yaml::Text("/test-"@ + label(tests.last())),
            test_entry(tests.last()),
        )
    }
}

fn label_text(t: &TestDef) -> (r: String)
    ensures
        r@ == label(t@),
{
    let n = text::decimal2_text(t.number as u64);
    text::concat3(n.as_str(), "-", t.name.as_str())
}

/// The attributes of a test.
fn attribute_table(extra: &serde_yaml::Value) -> (r: serde_yaml::Mapping)
    ensures
        yaml::entries(r) == attributes(yaml::content(*extra)),
{
    match yaml::as_table(extra) {
        Some(m) => yaml::clone_table(m),
        None => yaml::empty_table(),
    }
}

/// The YAML value of all tests.
pub fn tests_value(tests: &Vec<TestDef>) -> (r: serde_yaml::Value)
    ensures
        yaml::content(r) == yaml::Yaml::Table(tests_table(models(tests@))),
{
    let mut table = yaml::empty_table();
    let mut i: usize = 0;
    while i < tests.len()
        invariant
            i <= tests@.len(),
            yaml::entries(table) == tests_table(models(tests@).take(i as int)),
        decreases tests@.len() - i,
    {
        let t = &tests[i];
        let ghost upto = models(tests@).take(i + 1);
        assert(upto.drop_last() =~= models(tests@).take(i as int));
        assert(upto.last() == t@);
        let name = label_text(t);
        let key = text::concat2("/test-", name.as_str());
        let mut value = attribute_table(&t.extra);
        yaml::insert(
            &mut value,
            "test".to_owned(),
            yaml::text_value(t.test_command.as_str().to_owned()),
        );
        yaml::insert(&mut table, key, yaml::table_value(value));
        i += 1;
    }
    assert(models(tests@).take(i as int) =~= models(tests@));
    yaml::table_value(table)
}

/// What is written of a plan: the summary of its test, how to find the test, and its adjustments.
pub open spec fn plan_entry(t: TestModel) -> yaml::Yaml {
    let summary = yaml::lookup(attributes(t.extra), yaml::Yaml::Text("summary"@));
    let adjust = yaml::lookup(attributes(t.extra), yaml::Yaml::Text("adjust"@));
    let discover = yaml::Yaml::Table(
        yaml::with_entry(
            yaml::with_entry(
                Seq::empty(),
                yaml::Yaml::Text("how"@),
                yaml::Yaml::Text("fmf"@),
            ),
            yaml::Yaml::Text("test"@),
            yaml::Yaml::List(seq![yaml::Yaml::Text("/tmt/tests/tests/test-"@ + label(t))]),
        ),
    );
    let a = match summary {
        Some(v) => yaml::with_entry(Seq::empty(), yaml::Yaml::Text("summary"@), v),
        None => Seq::empty(),
    };
    let b = yaml::with_entry(a, yaml::Yaml::Text("discover"@), discover);
    let c = match adjust {
        Some(v) => yaml::with_entry(b, yaml::Yaml::Text("adjust"@), v),
        None => b,
    };
    yaml::Yaml::Table(c)
}

/// The table of all plans.
pub open spec fn plans_table(tests: Seq<TestModel>) -> Seq<(yaml::Yaml, yaml::Yaml)>
    decreases tests.len(),
{
    if tests.len() == 0 {
        Seq::empty()
    } else {
        yaml::with_entry(
            plans_table(tests.drop_last()),
            yaml::Yaml::Text("/plan-"@ + label(tests.last())),
            plan_entry(tests.last()),
        )
    }
}

/// The plan of a test.
pub fn plan_value(t: &TestDef) -> (r: serde_yaml::Value)
    ensures
        yaml::content(r) == plan_entry(t@),
{
    let attributes = attribute_table(&t.extra);
    let mut value = yaml::empty_table();
    match yaml::get(&attributes, "summary") {
        Some(summary) => {
            yaml::insert(&mut value, "summary".to_owned(), yaml::clone_value(summary));
        },
        None => {},
    }
    let mut discover = yaml::empty_table();
    yaml::insert(&mut discover, "how".to_owned(), yaml::text_value("fmf".to_owned()));
    let name = label_text(t);
    let path = text::concat2("/tmt/tests/tests/test-", name.as_str());
    let item = yaml::text_value(path);
    let ghost listed = yaml::content(item);
    let items = vec![item];
    assert(items@.map_values(|x: serde_yaml::Value| yaml::content(x)) =~= seq![listed]);
    yaml::insert(&mut discover, "test".to_owned(), yaml::list_value(items));
    yaml::insert(&mut value, "discover".to_owned(), yaml::table_value(discover));
    match yaml::get(&attributes, "adjust") {
        Some(adjust) => {
            yaml::insert(&mut value, "adjust".to_owned(), yaml::clone_value(adjust));
        },
        None => {},
    }
    yaml::table_value(value)
}

/// The YAML value of all plans.
pub fn plans_value(tests: &Vec<TestDef>) -> (r: serde_yaml::Value)
    ensures
        yaml::content(r) == yaml::Yaml::Table(plans_table(models(tests@))),
{
    let mut table = yaml::empty_table();
    let mut i: usize = 0;
    while i < tests.len()
        invariant
            i <= tests@.len(),
            yaml::entries(table) == plans_table(models(tests@).take(i as int)),
        decreases tests@.len() - i,
    {
        let t = &tests[i];
        let ghost upto = models(tests@).take(i + 1);
        assert(upto.drop_last() =~= models(tests@).take(i as int));
        assert(upto.last() == t@);
        let name = label_text(t);
        let key = text::concat2("/plan-", name.as_str());
        yaml::insert(&mut table, key, plan_value(t));
        i += 1;
    }
    assert(models(tests@).take(i as int) =~= models(tests@));
    yaml::table_value(table)
}

/// A line with the indentation that a listed test has: six spaces.
pub open spec fn fixed_line(line: Seq<char>) -> Seq<char> {
    if "    - /tmt/tests/"@.is_prefix_of(line) {
        "      "@ + text::trimmed_start(line)
    } else {
        line
    }
}

/// Lines, each written as `line` says, with an empty line before each entry but the first. A line
/// that starts with `opener` opens an entry.
pub open spec fn spaced(
    lines: Seq<Seq<char>>,
    opener: Seq<char>,
    line: spec_fn(Seq<char>) -> Seq<char>,
) -> Seq<char>
    decreases lines.len(),
{
    if lines.len() == 0 {
        Seq::empty()
    } else {
        let sofar = spaced(lines.drop_last(), opener, line);
        (if opener.is_prefix_of(lines.last()) && sofar.len() > 0 {
            sofar + "\n"@
        } else {
            sofar
        }) + line(lines.last()) + "\n"@
    }
}

/// The content of the test description file.
pub open spec fn tests_content(written: Seq<char>) -> Seq<char> {
    "# THIS IS GENERATED CODE - DO NOT EDIT\n# Generated by: cargo xtask tmt\n\n"@ + spaced(
        text::lines_of(written),
        "/test-"@,
        |l: Seq<char>| l,
    )
}

/// The part of the plan file that is rewritten.
pub open spec fn plans_section(written: Seq<char>) -> Seq<char> {
    spaced(text::lines_of(written), "/plan-"@, |l: Seq<char>| fixed_line(l))
}

/// The content of the test description file, made from the YAML text of the tests.
pub fn format_tests(written: &str) -> (r: String)
    ensures
        r@ == tests_content(written@),
{
    let lines = text::lines(written);
    let mut body = String::new();
    let mut i: usize = 0;
    let ghost all = text::lines_of(written@);
    let ghost same = |l: Seq<char>| l;
    while i < lines.len()
        invariant
            i <= lines@.len(),
            text::slice_views(lines@) == all,
            same == |l: Seq<char>| l,
            body@ == spaced(all.take(i as int), "/test-"@, same),
        decreases lines@.len() - i,
    {
        let line = lines[i];
        proof {
            assert(all[i as int] == line@);
            assert(all.take(i + 1).drop_last() =~= all.take(i as int));
            assert(all.take(i + 1).last() == line@);
        }
        if text::starts_with(line, "/test-") && body.as_str().unicode_len() > 0 {
            body.append("\n");
        }
        body.append(line);
        body.append("\n");
        i += 1;
    }
    assert(all.take(i as int) =~= all);
    text::concat2(
        "# THIS IS GENERATED CODE - DO NOT EDIT\n# Generated by: cargo xtask tmt\n\n",
        body.as_str(),
    )
}

/// The part of the plan file that is rewritten, made from the YAML text of the plans.
pub fn format_plans(written: &str) -> (r: String)
    ensures
        r@ == plans_section(written@),
{
    let lines = text::lines(written);
    let mut body = String::new();
    let mut i: usize = 0;
    let ghost all = text::lines_of(written@);
    let ghost fix = |l: Seq<char>| fixed_line(l);
    while i < lines.len()
        invariant
            i <= lines@.len(),
            text::slice_views(lines@) == all,
            fix == |l: Seq<char>| fixed_line(l),
            body@ == spaced(all.take(i as int), "/plan-"@, fix),
        decreases lines@.len() - i,
    {
        let line = lines[i];
        proof {
            assert(all[i as int] == line@);
            assert(all.take(i + 1).drop_last() =~= all.take(i as int));
            assert(all.take(i + 1).last() == line@);
        }
        if text::starts_with(line, "/plan-") && body.as_str().unicode_len() > 0 {
            body.append("\n");
        }
        if text::starts_with(line, "    - /tmt/tests/") {
            let fixed = text::concat2("      ", text::trim_start(line));
            body.append(fixed.as_str());
        } else {
            body.append(line);
        }
        body.append("\n");
        i += 1;
    }
    assert(all.take(i as int) =~= all);
    body
}

/// The content of the test description file for some tests; nothing where they cannot be written.
pub open spec fn tests_file_of(tests: Seq<TestModel>) -> Option<Seq<char>> {
    match yaml::written(yaml::Yaml::Table(tests_table(tests))) {
        Some(w) => Some(tests_content(w)),
        None => None,
    }
}

/// The content of the test description file; nothing where the tests cannot be written as YAML.
pub fn tests_file(tests: &Vec<TestDef>) -> (r: Option<String>)
    ensures
        text::opt_view(r) == tests_file_of(models(tests@)),
{
    let value = tests_value(tests);
    match yaml::to_string(&value) {
        Ok(w) => Some(format_tests(w.as_str())),
        Err(_) => None,
    }
}

/// Why the plan file cannot be rewritten.
#[derive(Debug, Clone, Copy, PartialEq, Eq, Structural)]
pub enum MarkerError {
    MissingBegin,
    MissingEnd,
    /// The plans cannot be written as YAML.
    Unwritable,
}

/// The plan file with another part between the markers: the first opening one, and the first
/// closing one after it.
pub open spec fn with_plans(existing: Seq<char>, section: Seq<char>) -> Option<Seq<char>> {
    match text::split_at_first(existing, PLAN_MARKER_BEGIN@) {
        Some((before, rest)) => match text::split_at_first(rest, PLAN_MARKER_END@) {
            Some((_, after)) => Some(
                before + PLAN_MARKER_BEGIN@ + section + PLAN_MARKER_END@ + after,
            ),
            None => None,
        },
        None => None,
    }
}

/// Puts another part between the markers of the plan file.
pub fn replace_plans(existing: &str, section: &str) -> (r: Result<String, MarkerError>)
    ensures
        match r {
            Ok(s) => with_plans(existing@, section@) == Some(s@),
            Err(e) => with_plans(existing@, section@) is None && (e == MarkerError::MissingBegin
                <==> !text::occurs(existing@, PLAN_MARKER_BEGIN@)) && e != MarkerError::Unwritable,
        },
{
    proof {
        text::lemma_find(existing@, PLAN_MARKER_BEGIN@);
    }
    match text::split_once(existing, PLAN_MARKER_BEGIN) {
        Some((before, rest)) => match text::split_once(rest, PLAN_MARKER_END) {
            Some((_, after)) => Ok(
                text::concat5(before, PLAN_MARKER_BEGIN, section, PLAN_MARKER_END, after),
            ),
            None => Err(MarkerError::MissingEnd),
        },
        None => Err(MarkerError::MissingBegin),
    }
}

/// Whether this is what comes of rewriting the plan file for some tests.
pub open spec fn is_plans_file(
    r: Result<String, MarkerError>,
    tests: Seq<TestModel>,
    existing: Seq<char>,
) -> bool {
    match yaml::written(yaml::Yaml::Table(plans_table(tests))) {
        Some(w) => match r {
            Ok(s) => with_plans(existing, plans_section(w)) == Some(s@),
            Err(e) => with_plans(existing, plans_section(w)) is None && (e
                == MarkerError::MissingBegin <==> !text::occurs(existing, PLAN_MARKER_BEGIN@)) && e
                != MarkerError::Unwritable,
        },
        None => r == Err::<String, MarkerError>(MarkerError::Unwritable),
    }
}

/// The plan file for these tests.
pub fn plans_file(tests: &Vec<TestDef>, existing: &str) -> (r: Result<String, MarkerError>)
    ensures
        is_plans_file(r, models(tests@), existing@),
{
    let value = plans_value(tests);
    match yaml::to_string(&value) {
        Ok(w) => {
            let section = format_plans(w.as_str());
            replace_plans(existing, section.as_str())
        },
        Err(_) => Err(MarkerError::Unwritable),
    }
}

/// Whether a file has to be written: it cannot be read, or holds something else.
pub fn needs_update(existing: Option<&str>, wanted: &str) -> (r: bool)
    ensures
        r == (text::opt_slice_view(existing) != Some(wanted@)),
{
    match existing {
        Some(e) => !text::same(e, wanted),
        None => true,
    }
}

/// The views of files: their names and contents.
pub open spec fn file_views(files: Seq<(String, String)>) -> Seq<(Seq<char>, Seq<char>)> {
    files.map_values(|f: (String, String)| (f.0@, f.1@))
}

/// Whether something is wrong with a file: its name is that of a test, but there is none in it.
pub open spec fn file_fails(f: (Seq<char>, Seq<char>)) -> bool {
    stem_of(f.0) is Some && test_in(f.0, f.1) is None
}

/// The tests in files.
pub open spec fn tests_in(files: Seq<(Seq<char>, Seq<char>)>) -> Seq<TestModel>
    decreases files.len(),
{
    if files.len() == 0 {
        Seq::empty()
    } else {
        match test_in(files.last().0, files.last().1) {
            Some(t) => tests_in(files.drop_last()).push(t),
            None => tests_in(files.drop_last()),
        }
    }
}

/// Takes all test files in, and puts the tests in order. Files with other names are passed over. The
/// error is that of the first file with which something is wrong, with its place.
pub fn collect_tests(files: &Vec<(String, String)>) -> (r: Result<
    Vec<TestDef>,
    (usize, TestFileError),
>)
    ensures
        match r {
            Ok(tests) => (forall|i: int|
                0 <= i < files@.len() ==> !file_fails(#[trigger] file_views(files@)[i])) && models(
                tests@,
            ) == in_order(tests_in(file_views(files@))),
            Err((k, e)) => k < files@.len() && file_fails(file_views(files@)[k as int]) && (forall|
                i: int,
            |
                0 <= i < k ==> !file_fails(#[trigger] file_views(files@)[i])) && is_file_error(
                e,
                files@[k as int].0@,
                files@[k as int].1@,
            ),
        },
{
    let mut tests: Vec<TestDef> = Vec::new();
    let mut i: usize = 0;
    let ghost all = file_views(files@);
    assert(models(tests@) =~= tests_in(all.take(0)));
    while i < files.len()
        invariant
            i <= files@.len(),
            all == file_views(files@),
            models(tests@) == tests_in(all.take(i as int)),
            forall|j: int| 0 <= j < i ==> !file_fails(#[trigger] all[j]),
        decreases files@.len() - i,
    {
        proof {
            assert(all[i as int] == (files@[i as int].0@, files@[i as int].1@));
            assert(all.take(i + 1).drop_last() =~= all.take(i as int));
            assert(all.take(i + 1).last() == all[i as int]);
        }
        let ghost before = tests@;
        match define_test(files[i].0.as_str(), files[i].1.as_str()) {
            Ok(Some(t)) => {
                tests.push(t);
                assert(models(tests@) =~= models(before).push(t@));
            },
            Ok(None) => {},
            Err(e) => {
                return Err((i, e));
            },
        }
        i += 1;
    }
    assert(all.take(i as int) =~= all);
    Ok(sort_tests(tests))
}

/// The two files that are kept in step with the test files.
pub struct IntegrationFiles {
    /// The content of the test description file.
    pub tests: String,
    /// The content of the plan file. Where there is none, the test description file can still be
    /// written.
    pub plans: Result<String, MarkerError>,
}

/// Why there are no files to be kept in step.
pub enum IntegrationError {
    /// Something is wrong with the test file at this place.
    TestFile(usize, TestFileError),
    /// The tests cannot be written as YAML.
    Unwritable,
}

/// The test description file and the plan file, made from all test files and the existing plan file.
pub fn integration_files(files: &Vec<(String, String)>, existing: &str) -> (r: Result<
    IntegrationFiles,
    IntegrationError,
>)
    ensures
        ({
            let all = file_views(files@);
            let tests = in_order(tests_in(all));
            let none_fails = forall|i: int| 0 <= i < all.len() ==> !file_fails(#[trigger] all[i]);
            match r {
                Ok(f) => none_fails && tests_file_of(tests) == Some(f.tests@) && is_plans_file(
                    f.plans,
                    tests,
                    existing@,
                ),
                Err(IntegrationError::TestFile(k, e)) => k < all.len() && file_fails(all[k as int])
                    && (forall|i: int| 0 <= i < k ==> !file_fails(#[trigger] all[i]))
                    && is_file_error(e, all[k as int].0, all[k as int].1),
                Err(IntegrationError::Unwritable) => none_fails && tests_file_of(tests) is None,
            }
        }),
{
    match collect_tests(files) {
        Ok(tests) => match tests_file(&tests) {
            Some(content) => Ok(
                IntegrationFiles { tests: content, plans: plans_file(&tests, existing) },
            ),
            None => Err(IntegrationError::Unwritable),
        },
        Err((k, e)) => {
            assert(file_views(files@)[k as int] == (files@[k as int].0@, files@[k as int].1@));
            Err(IntegrationError::TestFile(k, e))
        },
    }
}

/// Keeping the files in step again, with nothing changed, finds nothing to write: the plan file is
/// rewritten to itself, as long as the plans hold no closing marker.
pub proof fn law_in_step(
    tests: Seq<TestModel>,
    existing: Seq<char>,
    plans: String,
    again: Result<String, MarkerError>,
)
    requires
        is_plans_file(Ok(plans), tests, existing),
        is_plans_file(again, tests, plans@),
        yaml::written(yaml::Yaml::Table(plans_table(tests))) matches Some(w) && text::find(
            plans_section(w) + PLAN_MARKER_END@,
            PLAN_MARKER_END@,
        ) == plans_section(w).len(),
    ensures
        again matches Ok(a) && a@ == plans@,
{
    let w = yaml::written(yaml::Yaml::Table(plans_table(tests))).unwrap();
    law_rewrite(existing, plans_section(w));
}

/// Rewriting the plans keeps what stands before the opening marker and after the closing one, and
/// doing it again with the same plans changes nothing, as long as the plans hold no closing marker.
pub proof fn law_rewrite(existing: Seq<char>, section: Seq<char>)
    requires
        with_plans(existing, section) is Some,
        text::find(section + PLAN_MARKER_END@, PLAN_MARKER_END@) == section.len(),
    ensures
        with_plans(with_plans(existing, section).unwrap(), section) == with_plans(
            existing,
            section,
        ),
        text::split_at_first(existing, PLAN_MARKER_BEGIN@) matches Some((before, rest)) && (before
            + PLAN_MARKER_BEGIN@).is_prefix_of(with_plans(existing, section).unwrap()) && (
        text::split_at_first(rest, PLAN_MARKER_END@) matches Some((_, after)) && (PLAN_MARKER_END@
            + after).is_suffix_of(with_plans(existing, section).unwrap())),
{
    let begin = PLAN_MARKER_BEGIN@;
    let end = PLAN_MARKER_END@;
    let (before, rest) = text::split_at_first(existing, begin).unwrap();
    let (_, after) = text::split_at_first(rest, end).unwrap();
    let new = with_plans(existing, section).unwrap();
    text::lemma_find(existing, begin);
    let i = text::find(existing, begin);
    assert(existing =~= before + begin + rest);
    assert(new =~= (before + begin) + (section + end + after));
    assert(existing =~= (before + begin) + rest);
    assert(text::matches_at(before + begin, i, begin)) by {
        assert((before + begin).subrange(i, i + begin.len()) =~= begin);
    }
    text::lemma_find_extends(before + begin, rest, begin);
    text::lemma_find_extends(before + begin, section + end + after, begin);
    assert(text::find(new, begin) == i);
    assert(new.take(i) =~= before);
    assert(new.skip(i + begin.len()) =~= section + end + after);
    text::lemma_find(section + end, end);
    text::lemma_find_extends(section + end, after, end);
    assert(new =~= (before + begin + section) + (end + after));
    assert((section + end + after).skip(section.len() as int + end.len()) =~= after);
}

/// Whether a line says nothing of a test: neither its number nor where its attributes begin.
pub open spec fn says_nothing(line: Seq<char>) -> bool {
    !"# number:"@.is_prefix_of(text::trimmed(line)) && text::trimmed(line) != "# tmt:"@
}

/// Whether a line, with a hash before it, holds attributes of a test.
pub open spec fn holds_attributes(line: Seq<char>) -> bool {
    let t = text::trimmed("#"@ + line);
    "#"@.is_prefix_of(t) && t != "#"@ && says_nothing("#"@ + line)
}

proof fn lemma_nothing_said(lines: Seq<Seq<char>>, i: int, j: int, h: Header)
    requires
        0 <= i <= j <= lines.len(),
        j <= HEADER_LINES,
        !h.in_block,
        forall|k: int| i <= k < j ==> says_nothing(#[trigger] lines[k]),
    ensures
        read_header(lines, i, h) == read_header(lines, j, h),
    decreases j - i,
{
    if i < j {
        assert(says_nothing(lines[i]));
        lemma_nothing_said(lines, i + 1, j, h);
    }
}

proof fn lemma_attributes(lines: Seq<Seq<char>>, i: int, body: Seq<Seq<char>>, h: Header)
    requires
        0 <= i,
        i + body.len() <= lines.len(),
        i + body.len() <= HEADER_LINES,
        h.in_block,
        forall|k: int|
            0 <= k < body.len() ==> holds_attributes(#[trigger] body[k]) && lines[i + k] == "#"@
                + body[k],
    ensures
        read_header(lines, i, h) == read_header(
            lines,
            i + body.len(),
            (Header { yaml: h.yaml + body, ..h }),
        ),
    decreases body.len(),
{
    if body.len() > 0 {
        let next = Header { yaml: h.yaml.push(body[0]), ..h };
        assert(holds_attributes(body[0]) && lines[i + 0] == "#"@ + body[0]);
        text::law_taken_off(body[0], "#"@);
        assert(read_header(lines, i, h) == read_header(lines, i + 1, next));
        let rest = body.drop_first();
        assert forall|k: int| 0 <= k < rest.len() implies holds_attributes(#[trigger] rest[k])
            && lines[i + 1 + k] == "#"@ + rest[k] by {
            assert(rest[k] == body[k + 1]);
            assert(lines[i + (k + 1)] == "#"@ + body[k + 1]);
        }
        lemma_attributes(lines, i + 1, rest, next);
        assert(next.yaml + rest =~= h.yaml + body);
    } else {
        assert(h.yaml + body =~= h.yaml);
    }
}

/// The head of a test gives its number and then its attributes, each line behind a hash, up to the
/// first line without one or with nothing behind it. What stands around them does not count.
pub proof fn law_header(
    content: Seq<char>,
    top: Seq<Seq<char>>,
    number: Seq<char>,
    n: nat,
    between: Seq<Seq<char>>,
    opener: Seq<char>,
    body: Seq<Seq<char>>,
    rest: Seq<Seq<char>>,
)
    requires
        text::lines_of(content) == top + seq![number] + between + seq![opener] + body.map_values(
            |l: Seq<char>| "#"@ + l,
        ) + rest,
        top.len() + between.len() + body.len() + 2 <= HEADER_LINES,
        forall|k: int| 0 <= k < top.len() ==> says_nothing(#[trigger] top[k]),
        forall|k: int| 0 <= k < between.len() ==> says_nothing(#[trigger] between[k]),
        forall|k: int| 0 <= k < body.len() ==> holds_attributes(#[trigger] body[k]),
        text::trimmed(number) == "# number: "@ + text::decimal(n),
        n <= u32::MAX,
        text::trimmed(opener) == "# tmt:"@,
        rest.len() > 0 ==> says_nothing(rest[0]) && (!"#"@.is_prefix_of(text::trimmed(rest[0]))
            || text::trimmed(rest[0]) == "#"@),
    ensures
        header(content) matches Some(h) && h.number == Some(n) && h.yaml == body,
{
    let marked = body.map_values(|l: Seq<char>| "#"@ + l);
    let lines = text::lines_of(content);
    let none = Header { number: None, in_block: false, yaml: Seq::empty() };
    let a = top.len() as int;
    let b = a + 1 + between.len();
    let numbered = Header { number: Some(n), ..none };
    let opened = Header { in_block: true, ..numbered };
    assert forall|k: int| 0 <= k < a implies says_nothing(#[trigger] lines[k]) by {
        assert(lines[k] == top[k]);
    }
    lemma_nothing_said(lines, 0, a, none);
    assert(lines[a] == number);
    reveal_strlit("# number:");
    reveal_strlit("# number: ");
    reveal_strlit(" ");
    assert("# number: "@ + text::decimal(n) =~= "# number:"@ + (" "@ + text::decimal(n)));
    text::law_taken_off(" "@ + text::decimal(n), "# number:"@);
    text::law_decimal(n, u32::MAX as nat);
    assert(text::trimmed(" "@ + text::decimal(n)) == text::decimal(n)) by {
        let d = text::decimal(n);
        text::law_digits(n, 0);
        assert('0' <= d[0] <= '9' && '0' <= d[d.len() - 1] <= '9');
        text::law_spaces(d[0]);
        text::law_spaces(d.last());
        text::law_spaces(' ');
        text::law_trimmed(" "@, d, Seq::empty());
        assert(" "@ + d + Seq::empty() =~= " "@ + d);
    }
    assert(read_header(lines, a, none) == read_header(lines, a + 1, numbered));
    assert forall|k: int| a + 1 <= k < b implies says_nothing(#[trigger] lines[k]) by {
        assert(lines[k] == between[k - a - 1]);
    }
    lemma_nothing_said(lines, a + 1, b, numbered);
    assert(lines[b] == opener);
    reveal_strlit("# tmt:");
    if "# number:"@.is_prefix_of("# tmt:"@) {
        assert(false);
    }
    assert(read_header(lines, b, numbered) == read_header(lines, b + 1, opened));
    assert forall|k: int| 0 <= k < body.len() implies holds_attributes(#[trigger] body[k])
        && lines[b + 1 + k] == "#"@ + body[k] by {
        assert(lines[b + 1 + k] == marked[k]);
    }
    lemma_attributes(lines, b + 1, body, opened);
    let end = b + 1 + body.len();
    let done = Header { yaml: opened.yaml + body, ..opened };
    assert(opened.yaml + body =~= body);
    if rest.len() > 0 {
        assert(lines[end] == rest[0]);
    }
    assert(read_header(lines, end, done) == Some(done));
}

/// A head without a number has none, and one whose number cannot be read is an error.
pub proof fn law_no_header(content: Seq<char>, top: Seq<Seq<char>>, number: Seq<char>, rest: Seq<
    Seq<char>,
>)
    requires
        forall|k: int| 0 <= k < top.len() ==> says_nothing(#[trigger] top[k]),
    ensures
        text::lines_of(content) == top ==> (header(content) matches Some(h) && h.number is None),
        text::lines_of(content) == top + seq![number] + rest && top.len() < HEADER_LINES
            && "# number:"@.is_prefix_of(text::trimmed(number)) && text::parsed_unsigned(
            text::trimmed(text::trimmed(number).skip("# number:"@.len() as int)),
            u32::MAX as nat,
        ) is None ==> header(content) is None,
{
    let lines = text::lines_of(content);
    let none = Header { number: None, in_block: false, yaml: Seq::empty() };
    if lines == top {
        let n: int = if top.len() <= HEADER_LINES {
            top.len() as int
        } else {
            HEADER_LINES as int
        };
        lemma_nothing_said(lines, 0, n, none);
    }
    if lines == top + seq![number] + rest && top.len() < HEADER_LINES {
        let a = top.len() as int;
        assert forall|k: int| 0 <= k < a implies says_nothing(#[trigger] lines[k]) by {
            assert(lines[k] == top[k]);
        }
        lemma_nothing_said(lines, 0, a, none);
        assert(lines[a] == number);
    }
}

/// A test without attributes has an empty table of them; attributes are what YAML reads in the head.
pub proof fn law_metadata(content: Seq<char>, h: Header, n: nat)
    requires
        header(content) == Some(h),
    ensures
        h.number is None <==> metadata(content) == Some(None::<(nat, yaml::Yaml)>),
        h.number == Some(n) && text::trimmed(text::joined(h.yaml, "\n"@)).len() == 0 ==> metadata(
            content,
        ) == Some(Some((n, yaml::Yaml::Table(Seq::empty())))),
        h.number == Some(n) && text::trimmed(text::joined(h.yaml, "\n"@)).len() > 0 ==> match
            yaml::parsed(text::joined(h.yaml, "\n"@)) {
            Some(v) => metadata(content) == Some(Some((n, v))),
            None => metadata(content) is None,
        },
{
}

/// A file is a test exactly if its name begins with `test-` and ends in `.nu` or `.sh`; what stands
/// between them names it.
pub proof fn law_stem(filename: Seq<char>, stem: Seq<char>)
    ensures
        stem_of("test-"@ + stem + ".nu"@) == Some(stem),
        stem_of("test-"@ + stem + ".sh"@) == Some(stem),
        stem_of(filename) == Some(stem) <==> filename == "test-"@ + stem + ".nu"@ || filename
            == "test-"@ + stem + ".sh"@,
{
    let a = stem + ".nu"@;
    let b = stem + ".sh"@;
    assert("test-"@ + stem + ".nu"@ =~= "test-"@ + a);
    assert("test-"@ + stem + ".sh"@ =~= "test-"@ + b);
    text::law_taken_off(a, "test-"@);
    text::law_taken_off(b, "test-"@);
    text::law_taken_off(stem, ".nu"@);
    text::law_taken_off(stem, ".sh"@);
    reveal_strlit(".nu");
    reveal_strlit(".sh");
    if ".nu"@.is_suffix_of(b) {
        let t = b.subrange(b.len() - 3, b.len() as int);
        assert(t[1] == 's');
        assert(".nu"@[1] == 'n');
    }
    text::law_taken_off(filename, "test-"@);
    if let Some(s) = text::without_prefix(filename, "test-"@) {
        text::law_taken_off(s, ".nu"@);
        text::law_taken_off(s, ".sh"@);
    }
}

/// A number before the first dash is not shown; everything else is.
pub proof fn law_shown_name(front: Seq<char>, rest: Seq<char>, i: int)
    requires
        !front.contains('-'),
    ensures
        (forall|k: int| 0 <= k < front.len() ==> '0' <= #[trigger] front[k] <= '9') ==> shown_name(
            front + "-"@ + rest,
        ) == rest,
        0 <= i < front.len() && !('0' <= front[i] <= '9') ==> shown_name(front + "-"@ + rest)
            == front + "-"@ + rest,
        shown_name(front) == front,
{
    reveal_strlit("-");
    assert("-"@ =~= seq!['-']);
    text::law_split_at_char(front, '-', rest);
    if 0 <= i < front.len() && !('0' <= front[i] <= '9') {
        assert(!text::is_digit(front[i]));
    }
}

/// A test is run by the shell that its name ends in.
pub proof fn law_command(stem: Seq<char>)
    ensures
        command_of(stem + ".nu"@) == "nu booted/"@ + stem + ".nu"@,
        command_of(stem + ".sh"@) == "bash booted/"@ + stem + ".sh"@,
{
    text::law_taken_off(stem, ".nu"@);
    let b = stem + ".sh"@;
    reveal_strlit(".nu");
    reveal_strlit(".sh");
    if ".nu"@.is_suffix_of(b) {
        let t = b.subrange(b.len() - 3, b.len() as int);
        assert(t[1] == 's');
        assert(".nu"@[1] == 'n');
    }
    reveal_strlit("nu");
    reveal_strlit("bash");
    reveal_strlit(" booted/");
    reveal_strlit("nu booted/");
    reveal_strlit("bash booted/");
    assert("nu"@ + " booted/"@ =~= "nu booted/"@);
    assert("bash"@ + " booted/"@ =~= "bash booted/"@);
    assert(command_of(stem + ".nu"@) =~= "nu booted/"@ + stem + ".nu"@);
    assert(command_of(b) =~= "bash booted/"@ + stem + ".sh"@);
}

/// A file that is a test and has a head gives that test: numbered by the head, named by the file.
pub proof fn law_test_in(filename: Seq<char>, content: Seq<char>, stem: Seq<char>, n: nat, extra:
    yaml::Yaml)
    requires
        filename == "test-"@ + stem + ".nu"@ || filename == "test-"@ + stem + ".sh"@,
    ensures
        metadata(content) == Some(Some((n, extra))) ==> (test_in(filename, content) matches Some(t)
            && t.number == n && t.extra == extra && t.name == shown_name(stem) && t.command
            == command_of(filename)),
        test_in(filename, content) is None <==> file_fails((filename, content)),
        file_fails((filename, content)) <==> !(metadata(content) matches Some(Some(_))),
{
    law_stem(filename, stem);
}

/// A file that is no test neither gives one nor is an error.
pub proof fn law_no_test(filename: Seq<char>, content: Seq<char>)
    requires
        forall|stem: Seq<char>|
            filename != "test-"@ + stem + ".nu"@ && filename != #[trigger] ("test-"@ + stem)
                + ".sh"@,
    ensures
        test_in(filename, content) is None,
        !file_fails((filename, content)),
{
    if let Some(stem) = stem_of(filename) {
        law_stem(filename, stem);
        assert(filename == ("test-"@ + stem) + ".sh"@ || filename == ("test-"@ + stem) + ".nu"@);
    }
}

/// The tests are those that the files give, in their order and no others.
pub proof fn law_tests_in(
    files: Seq<(Seq<char>, Seq<char>)>,
    file: (Seq<char>, Seq<char>),
    t: TestModel,
)
    ensures
        tests_in(files).contains(t) <==> exists|i: int|
            0 <= i < files.len() && test_in((#[trigger] files[i]).0, files[i].1) == Some(t),
        test_in(file.0, file.1) == Some(t) ==> tests_in(files.push(file)) == tests_in(files).push(t),
        test_in(file.0, file.1) is None ==> tests_in(files.push(file)) == tests_in(files),
    decreases files.len(),
{
    assert(files.push(file).drop_last() =~= files);
    assert(files.push(file).last() == file);
    if files.len() > 0 {
        let front = files.drop_last();
        let f = files.last();
        law_tests_in(front, file, t);
        let all = tests_in(front);
        if let Some(m) = test_in(f.0, f.1) {
            assert(all.push(m).last() == m);
            if all.push(m).contains(t) {
                let k = all.push(m).index_of(t);
                if k < all.len() {
                    assert(all[k] == t);
                }
            }
            if all.contains(t) {
                assert(all.push(m)[all.index_of(t)] == t);
            }
        }
        if tests_in(files).contains(t) {
            if all.contains(t) {
                let i = choose|i: int|
                    0 <= i < front.len() && test_in((#[trigger] front[i]).0, front[i].1) == Some(t);
                assert(files[i] == front[i]);
            } else {
                assert(files[files.len() - 1] == f);
            }
        }
        if exists|i: int|
            0 <= i < files.len() && test_in((#[trigger] files[i]).0, files[i].1) == Some(t) {
            let i = choose|i: int|
                0 <= i < files.len() && test_in((#[trigger] files[i]).0, files[i].1) == Some(t);
            if i < front.len() {
                assert(front[i] == files[i]);
            }
        }
    }
}

/// A test's label is its number, of two digits at least, a dash and its name.
pub proof fn law_label(t: TestModel)
    ensures
        t.number < 10 ==> label(t) == "0"@ + text::decimal(t.number) + "-"@ + t.name,
        t.number >= 10 ==> label(t) == text::decimal(t.number) + "-"@ + t.name,
{
    reveal_strlit("0");
    assert("0"@ =~= seq!['0']);
}

/// A test is written with its attributes, but for the command, which is always its own.
pub proof fn law_test_entry(t: TestModel, key: yaml::Yaml)
    ensures
        test_entry(t) matches yaml::Yaml::Table(e) && yaml::lookup(e, yaml::Yaml::Text("test"@))
            == Some(yaml::Yaml::Text(t.command)) && (key != yaml::Yaml::Text("test"@)
            ==> yaml::lookup(e, key) == yaml::lookup(attributes(t.extra), key)),
{
    yaml::law_with_entry(
        attributes(t.extra),
        yaml::Yaml::Text("test"@),
        yaml::Yaml::Text(t.command),
        key,
    );
}

/// Only a table holds attributes.
pub proof fn law_attributes(extra: yaml::Yaml, e: Seq<(yaml::Yaml, yaml::Yaml)>)
    ensures
        attributes(yaml::Yaml::Table(e)) == e,
        !(extra is Table) ==> attributes(extra).len() == 0,
{
}

/// Every test is written under its label, and so is its plan; where two share a label the last
/// counts. Nothing else is written.
pub proof fn law_written_tests(tests: Seq<TestModel>, i: int, key: yaml::Yaml)
    requires
        0 <= i < tests.len(),
        forall|k: int| i < k < tests.len() ==> label(#[trigger] tests[k]) != label(tests[i]),
    ensures
        yaml::lookup(tests_table(tests), yaml::Yaml::Text("/test-"@ + label(tests[i]))) == Some(
            test_entry(tests[i]),
        ),
        yaml::lookup(plans_table(tests), yaml::Yaml::Text("/plan-"@ + label(tests[i]))) == Some(
            plan_entry(tests[i]),
        ),
        (forall|k: int|
            0 <= k < tests.len() ==> key != yaml::Yaml::Text("/test-"@ + label(#[trigger] tests[k])))
            ==> yaml::lookup(tests_table(tests), key) is None,
        (forall|k: int|
            0 <= k < tests.len() ==> key != yaml::Yaml::Text("/plan-"@ + label(#[trigger] tests[k])))
            ==> yaml::lookup(plans_table(tests), key) is None,
{
    lemma_written_last(tests, i);
    lemma_written_none(tests, key);
}

proof fn lemma_labels_differ(marker: Seq<char>, a: Seq<char>, b: Seq<char>)
    ensures
        marker + a == marker + b ==> a == b,
{
    if marker + a == marker + b {
        assert((marker + a).skip(marker.len() as int) =~= a);
        assert((marker + b).skip(marker.len() as int) =~= b);
    }
}

proof fn lemma_written_last(tests: Seq<TestModel>, i: int)
    requires
        0 <= i < tests.len(),
        forall|k: int| i < k < tests.len() ==> label(#[trigger] tests[k]) != label(tests[i]),
    ensures
        yaml::lookup(tests_table(tests), yaml::Yaml::Text("/test-"@ + label(tests[i]))) == Some(
            test_entry(tests[i]),
        ),
        yaml::lookup(plans_table(tests), yaml::Yaml::Text("/plan-"@ + label(tests[i]))) == Some(
            plan_entry(tests[i]),
        ),
    decreases tests.len(),
{
    let front = tests.drop_last();
    let t = tests.last();
    let a = yaml::Yaml::Text("/test-"@ + label(tests[i]));
    let b = yaml::Yaml::Text("/plan-"@ + label(tests[i]));
    yaml::law_with_entry(
        tests_table(front),
        yaml::Yaml::Text("/test-"@ + label(t)),
        test_entry(t),
        a,
    );
    yaml::law_with_entry(
        plans_table(front),
        yaml::Yaml::Text("/plan-"@ + label(t)),
        plan_entry(t),
        b,
    );
    if i < front.len() {
        assert(front[i] == tests[i]);
        assert forall|k: int| i < k < front.len() implies label(#[trigger] front[k]) != label(
            front[i],
        ) by {
            assert(front[k] == tests[k]);
        }
        lemma_written_last(front, i);
        assert(label(tests[tests.len() - 1]) != label(tests[i]));
        lemma_labels_differ("/test-"@, label(t), label(tests[i]));
        lemma_labels_differ("/plan-"@, label(t), label(tests[i]));
    }
}

proof fn lemma_written_none(tests: Seq<TestModel>, key: yaml::Yaml)
    ensures
        (forall|k: int|
            0 <= k < tests.len() ==> key != yaml::Yaml::Text("/test-"@ + label(#[trigger] tests[k])))
            ==> yaml::lookup(tests_table(tests), key) is None,
        (forall|k: int|
            0 <= k < tests.len() ==> key != yaml::Yaml::Text("/plan-"@ + label(#[trigger] tests[k])))
            ==> yaml::lookup(plans_table(tests), key) is None,
    decreases tests.len(),
{
    if tests.len() == 0 {
        yaml::law_lookup(tests_table(tests), key, 0);
        yaml::law_lookup(plans_table(tests), key, 0);
    } else {
        let front = tests.drop_last();
        let t = tests.last();
        lemma_written_none(front, key);
        assert(tests[tests.len() - 1] == t);
        yaml::law_with_entry(
            tests_table(front),
            yaml::Yaml::Text("/test-"@ + label(t)),
            test_entry(t),
            key,
        );
        yaml::law_with_entry(
            plans_table(front),
            yaml::Yaml::Text("/plan-"@ + label(t)),
            plan_entry(t),
            key,
        );
        if forall|k: int|
            0 <= k < tests.len() ==> key != yaml::Yaml::Text("/test-"@ + label(#[trigger] tests[k])) {
            assert forall|k: int| 0 <= k < front.len() implies key != yaml::Yaml::Text(
                "/test-"@ + label(#[trigger] front[k]),
            ) by {
                assert(front[k] == tests[k]);
            }
        }
        if forall|k: int|
            0 <= k < tests.len() ==> key != yaml::Yaml::Text("/plan-"@ + label(#[trigger] tests[k])) {
            assert forall|k: int| 0 <= k < front.len() implies key != yaml::Yaml::Text(
                "/plan-"@ + label(#[trigger] front[k]),
            ) by {
                assert(front[k] == tests[k]);
            }
        }
    }
}

/// A plan discovers exactly its test, and takes over the summary and the adjustments of the test
/// where it has any.
pub proof fn law_plan_entry(t: TestModel)
    ensures
        plan_entry(t) matches yaml::Yaml::Table(e) && {
            &&& yaml::lookup(e, yaml::Yaml::Text("summary"@)) == yaml::lookup(
                attributes(t.extra),
                yaml::Yaml::Text("summary"@),
            )
            &&& yaml::lookup(e, yaml::Yaml::Text("adjust"@)) == yaml::lookup(
                attributes(t.extra),
                yaml::Yaml::Text("adjust"@),
            )
            &&& yaml::lookup(e, yaml::Yaml::Text("discover"@)) matches Some(
                yaml::Yaml::Table(d),
            ) && yaml::lookup(d, yaml::Yaml::Text("how"@)) == Some(yaml::Yaml::Text("fmf"@))
                && yaml::lookup(d, yaml::Yaml::Text("test"@)) == Some(
                yaml::Yaml::List(seq![yaml::Yaml::Text("/tmt/tests/tests/test-"@ + label(t))]),
            )
        },
{
    let s = yaml::Yaml::Text("summary"@);
    let d = yaml::Yaml::Text("discover"@);
    let j = yaml::Yaml::Text("adjust"@);
    let how = yaml::Yaml::Text("how"@);
    let test = yaml::Yaml::Text("test"@);
    reveal_strlit("summary");
    reveal_strlit("discover");
    reveal_strlit("adjust");
    reveal_strlit("how");
    reveal_strlit("test");
    assert("summary"@.len() == 7 && "discover"@.len() == 8 && "adjust"@.len() == 6);
    assert("how"@.len() == 3 && "test"@.len() == 4);
    let empty = Seq::<(yaml::Yaml, yaml::Yaml)>::empty();
    let list = yaml::Yaml::List(seq![yaml::Yaml::Text("/tmt/tests/tests/test-"@ + label(t))]);
    let one = yaml::with_entry(empty, how, yaml::Yaml::Text("fmf"@));
    yaml::law_with_entry(empty, how, yaml::Yaml::Text("fmf"@), test);
    yaml::law_with_entry(one, test, list, how);
    let discover = yaml::Yaml::Table(yaml::with_entry(one, test, list));
    let summary = yaml::lookup(attributes(t.extra), s);
    let adjust = yaml::lookup(attributes(t.extra), j);
    let a = match summary {
        Some(v) => yaml::with_entry(empty, s, v),
        None => empty,
    };
    yaml::law_lookup(empty, s, 0);
    yaml::law_lookup(empty, j, 0);
    if let Some(v) = summary {
        yaml::law_with_entry(empty, s, v, j);
    }
    assert(yaml::lookup(a, s) == summary);
    assert(yaml::lookup(a, j) is None);
    yaml::law_with_entry(a, d, discover, s);
    yaml::law_with_entry(a, d, discover, j);
    let b = yaml::with_entry(a, d, discover);
    if let Some(v) = adjust {
        yaml::law_with_entry(b, j, v, s);
        yaml::law_with_entry(b, j, v, d);
    }
}

/// The tests of a plan are indented by two more, and no other line is touched.
pub proof fn law_fixed_line(line: Seq<char>, rest: Seq<char>)
    ensures
        fixed_line("    - /tmt/tests/"@ + rest) == "      - /tmt/tests/"@ + rest,
        !"    - /tmt/tests/"@.is_prefix_of(line) ==> fixed_line(line) == line,
{
    let l = "    - /tmt/tests/"@ + rest;
    text::law_taken_off(rest, "    - /tmt/tests/"@);
    reveal_strlit("    - /tmt/tests/");
    reveal_strlit("      - /tmt/tests/");
    reveal_strlit("      ");
    reveal_with_fuel(text::trimmed_start, 5);
    let tail = l.drop_first().drop_first().drop_first().drop_first();
    assert(tail[0] == '-');
    assert(text::trimmed_start(l) == tail);
    assert("      "@ + tail =~= "      - /tmt/tests/"@ + rest);
}

/// Lines are written one by one; before an opening line there is an empty one, unless it is the
/// first.
pub proof fn law_spaced(
    lines: Seq<Seq<char>>,
    last: Seq<char>,
    opener: Seq<char>,
    line: spec_fn(Seq<char>) -> Seq<char>,
)
    ensures
        spaced(seq![last], opener, line) == line(last) + "\n"@,
        lines.len() > 0 && opener.is_prefix_of(last) ==> spaced(lines.push(last), opener, line)
            == spaced(lines, opener, line) + "\n"@ + line(last) + "\n"@,
        lines.len() > 0 && !opener.is_prefix_of(last) ==> spaced(lines.push(last), opener, line)
            == spaced(lines, opener, line) + line(last) + "\n"@,
{
    reveal_strlit("\n");
    assert(lines.push(last).drop_last() =~= lines);
    assert(lines.push(last).last() == last);
    assert(seq![last].drop_last() =~= Seq::<Seq<char>>::empty());
    reveal_with_fuel(spaced, 2);
    assert(Seq::<char>::empty() + line(last) + "\n"@ =~= line(last) + "\n"@);
    if lines.len() > 0 {
        assert(spaced(lines, opener, line).len() > 0);
    }
}

/// The plans between the markers are replaced, and all around them stays: whatever is before the
/// first opening marker, and whatever is behind the closing marker that follows it.
pub proof fn law_with_plans(existing: Seq<char>, section: Seq<char>)
    ensures
        match with_plans(existing, section) {
            Some(s) => exists|before: Seq<char>, old: Seq<char>, after: Seq<char>|
                existing == #[trigger] (before + "# BEGIN GENERATED PLANS\n"@ + old
                    + "# END GENERATED PLANS\n"@ + after) && s == before
                    + "# BEGIN GENERATED PLANS\n"@ + section + "# END GENERATED PLANS\n"@ + after
                    && (forall|i: int|
                    0 <= i < before.len() ==> #[trigger] existing.subrange(
                        i,
                        i + "# BEGIN GENERATED PLANS\n"@.len(),
                    ) != "# BEGIN GENERATED PLANS\n"@) && (forall|i: int|
                    0 <= i < old.len() ==> #[trigger] (old + "# END GENERATED PLANS\n"@
                        + after).subrange(i, i + "# END GENERATED PLANS\n"@.len())
                        != "# END GENERATED PLANS\n"@),
            None => match text::split_at_first(existing, "# BEGIN GENERATED PLANS\n"@) {
                Some((_, rest)) => !text::occurs(rest, "# END GENERATED PLANS\n"@),
                None => !text::occurs(existing, "# BEGIN GENERATED PLANS\n"@),
            },
        },
        !text::occurs(existing, "# BEGIN GENERATED PLANS\n"@) ==> with_plans(existing, section)
            is None,
{
    let b = "# BEGIN GENERATED PLANS\n"@;
    let e = "# END GENERATED PLANS\n"@;
    text::law_split_at_first(existing, b);
    text::law_occurs(existing, b, Seq::empty(), Seq::empty());
    if let Some((before, rest)) = text::split_at_first(existing, b) {
        assert(existing.subrange(before.len() as int, (before.len() + b.len()) as int) =~= b);
        text::law_split_at_first(rest, e);
        if let Some((old, after)) = text::split_at_first(rest, e) {
            assert(existing =~= before + b + old + e + after);
        } else {
            text::law_occurs(rest, e, Seq::empty(), Seq::empty());
        }
    }
}

/// The description of the tests says first that it is generated, and then all that was written, with
/// an empty line before each test but the first.
pub proof fn law_tests_content(written: Seq<char>, line: Seq<char>)
    ensures
        "# THIS IS GENERATED CODE - DO NOT EDIT\n"@.is_prefix_of(tests_content(written)),
        text::lines_of(written) == seq![line] ==> (line + "\n"@).is_suffix_of(
            tests_content(written),
        ),
        written.len() == 0 ==> tests_content(written)
            == "# THIS IS GENERATED CODE - DO NOT EDIT\n# Generated by: cargo xtask tmt\n\n"@,
{
    reveal_strlit("# THIS IS GENERATED CODE - DO NOT EDIT\n");
    reveal_strlit("# THIS IS GENERATED CODE - DO NOT EDIT\n# Generated by: cargo xtask tmt\n\n");
    let head = "# THIS IS GENERATED CODE - DO NOT EDIT\n# Generated by: cargo xtask tmt\n\n"@;
    let first = "# THIS IS GENERATED CODE - DO NOT EDIT\n"@;
    let all = tests_content(written);
    assert(first =~= all.subrange(0, first.len() as int));
    if text::lines_of(written) == seq![line] {
        law_spaced(Seq::empty(), line, "/test-"@, |l: Seq<char>| l);
        text::law_taken_off(head, line + "\n"@);
    }
    if written.len() == 0 {
        assert(written =~= Seq::<char>::empty());
        text::law_lines(Seq::empty(), Seq::empty());
        assert(text::lines_of(written) =~= Seq::<Seq<char>>::empty());
        assert(all =~= head);
    }
}

} // verus!
