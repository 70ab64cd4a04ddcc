use std::cell::RefCell;

use breathe::gate::{authored_write_gate, LiveWitness};
use breathe::manifest::{
    apply_all, commit_message, on_clean, on_committed, on_read, set_scalar_at_marker, transport,
    within_prefix, AddressedProposal, CommitOutcome, Committing, EditError, EditOutcome,
    GitManifestWriter, ManifestCoordinate, RepoError, ScalarAssignment, ScalarEdit,
};
use breathe::request::{ContentAddr, WriterError};

const MANIFEST: &str = "\
apiVersion: helm.toolkit.fluxcd.io/v2
kind: HelmRelease
metadata:
  name: sui            # the build cache
spec:
  values:
    image:
      tag: amd64-r412-9c1f2a # {\"$imagepolicy\": \"flux-system:sui:tag\"}
    resources:
      requests:
        memory: 512Mi # {\"$breathe\": \"camelot-build/sui-request\"}
        cpu: 200m
      limits:
        memory: 6Gi
";

fn set(src: &str, marker: &str, v: &str) -> Result<EditOutcome, EditError> {
    set_scalar_at_marker(src.as_bytes(), marker, v)
}

#[test]
fn the_edit_touches_exactly_one_span_and_nothing_else() {
    let EditOutcome::Changed { edit, rendered } =
        set(MANIFEST, "camelot-build/sui-request", "3Gi").unwrap()
    else {
        panic!("512Mi -> 3Gi is a change")
    };
    assert_eq!(edit.from, "512Mi");
    assert_eq!(edit.to, "3Gi");

    let out = String::from_utf8(rendered).unwrap();
    let diffs: Vec<_> = MANIFEST.lines().zip(out.lines()).filter(|(a, b)| a != b).collect();
    assert_eq!(diffs.len(), 1, "exactly one line may differ, got {diffs:?}");
    assert_eq!(diffs[0].1, "        memory: 3Gi # {\"$breathe\": \"camelot-build/sui-request\"}");
    assert_eq!(MANIFEST.lines().count(), out.lines().count());
}

#[test]
fn the_neighbouring_imagepolicy_marker_survives() {
    let EditOutcome::Changed { rendered, .. } =
        set(MANIFEST, "camelot-build/sui-request", "3Gi").unwrap()
    else {
        panic!()
    };
    let out = String::from_utf8(rendered).unwrap();
    assert!(out.contains("# {\"$imagepolicy\": \"flux-system:sui:tag\"}"));
    assert!(out.contains("  name: sui            # the build cache"), "unrelated comments + spacing survive");
}

#[test]
fn an_already_correct_value_produces_no_bytes() {
    let o = set(MANIFEST, "camelot-build/sui-request", "512Mi").unwrap();
    assert!(matches!(o, EditOutcome::Unchanged { value, .. } if value == "512Mi"));
}

#[test]
fn a_missing_marker_is_refused_not_guessed() {
    assert_eq!(
        set(MANIFEST, "nope", "1Gi"),
        Err(EditError::MarkerNotFound { marker: "nope".into() })
    );
}

#[test]
fn an_ambiguous_marker_is_refused_never_first_match_wins() {
    let dup = "\
a: 1 # {\"$breathe\": \"dup\"}
b: 2 # {\"$breathe\": \"dup\"}
";
    let Err(EditError::MarkerAmbiguous { lines, .. }) = set(dup, "dup", "9") else {
        panic!("two anchors must refuse")
    };
    assert_eq!(lines, vec![1, 2]);
}

#[test]
fn a_marker_is_matched_whole_never_as_a_prefix() {
    let src = "m: 1 # {\"$breathe\": \"sui-cache\"}\n";
    assert!(matches!(set(src, "sui", "2"), Err(EditError::MarkerNotFound { .. })));
    assert!(matches!(set(src, "sui-cache", "2"), Ok(EditOutcome::Changed { .. })));
}

#[test]
fn quoting_style_and_spacing_are_preserved() {
    for (src, want) in [
        ("  memory:   \"512Mi\"   # {\"$breathe\": \"m\"}\n", "  memory:   \"3Gi\"   # {\"$breathe\": \"m\"}\n"),
        ("  memory: '512Mi' # {\"$breathe\": \"m\"}\n", "  memory: '3Gi' # {\"$breathe\": \"m\"}\n"),
        ("\tmemory: 512Mi\t# {\"$breathe\": \"m\"}\n", "\tmemory: 3Gi\t# {\"$breathe\": \"m\"}\n"),
    ] {
        let EditOutcome::Changed { rendered, .. } = set(src, "m", "3Gi").unwrap() else { panic!() };
        assert_eq!(String::from_utf8(rendered).unwrap(), want);
    }
}

#[test]
fn a_file_with_no_trailing_newline_keeps_not_having_one() {
    let src = "memory: 512Mi # {\"$breathe\": \"m\"}";
    let EditOutcome::Changed { rendered, .. } = set(src, "m", "1Gi").unwrap() else { panic!() };
    assert_eq!(String::from_utf8(rendered).unwrap(), "memory: 1Gi # {\"$breathe\": \"m\"}");
}

#[test]
fn a_marked_line_that_is_not_an_assignment_is_refused() {
    let src = "- item # {\"$breathe\": \"m\"}\n";
    assert!(matches!(set(src, "m", "1Gi"), Err(EditError::NotAScalarAssignment { .. })));
}

#[test]
fn non_utf8_is_refused_not_lossily_converted() {
    assert_eq!(set_scalar_at_marker(&[0xff, 0xfe], "m", "1"), Err(EditError::NotUtf8));
}

fn coord() -> ManifestCoordinate {
    ManifestCoordinate::new("clusters/camelot/apps/sui/release.yaml", "camelot-build/sui-request")
}

#[test]
fn a_carve_addresses_deterministically_and_a_different_value_readdresses() {
    let a = AddressedProposal::carve(&coord(), "3Gi", "memory", "sui");
    let b = AddressedProposal::carve(&coord(), "3Gi", "memory", "sui");
    let c = AddressedProposal::carve(&coord(), "4Gi", "memory", "sui");
    assert_eq!(a.addr(), b.addr(), "same inputs, same address");
    assert_ne!(a.addr(), c.addr(), "a different value is a different proposal");
    assert_eq!(a.assignments().len(), 1);
}

/// A repository in memory that records what is asked of it.
struct MockRepo {
    files: Vec<(String, Vec<u8>)>,
    clean: bool,
    commits: RefCell<Vec<(String, Vec<u8>, String)>>,
    reads: RefCell<usize>,
}

impl MockRepo {
    fn with(path: &str, body: &str) -> Self {
        Self {
            files: vec![(path.to_owned(), body.as_bytes().to_vec())],
            clean: true,
            commits: RefCell::new(Vec::new()),
            reads: RefCell::new(0),
        }
    }
    fn commits(&self) -> usize {
        self.commits.borrow().len()
    }
    fn read(&self, path: &str) -> Result<Vec<u8>, RepoError> {
        *self.reads.borrow_mut() += 1;
        self.files
            .iter()
            .find(|(p, _)| p == path)
            .map(|(_, b)| b.clone())
            .ok_or_else(|| RepoError::NotFound { path: path.to_owned() })
    }
    fn is_clean(&self) -> Result<bool, RepoError> {
        *self.reads.borrow_mut() += 1;
        Ok(self.clean)
    }
    fn commit_file(&self, path: &str, bytes: &[u8], message: &str) -> Result<String, RepoError> {
        self.commits.borrow_mut().push((path.to_owned(), bytes.to_vec(), message.to_owned()));
        Ok("deadbeef".to_owned())
    }
}

fn witness() -> LiveWitness {
    authored_write_gate("drzzln: test").witness().expect("an authored write resolves Live").clone()
}

fn commit(
    w: &GitManifestWriter<MockRepo>,
    p: &AddressedProposal,
) -> Result<CommitOutcome, WriterError> {
    let mut state = w.commit(&witness(), p);
    loop {
        state = match state {
            Committing::AwaitClean => on_clean(w.repo().is_clean()),
            Committing::AwaitRead => on_read(p, w.repo().read(p.path())),
            Committing::AwaitCommit { outcome } => {
                let message = commit_message(p, &outcome);
                let sha = w.repo().commit_file(p.path(), &outcome.rendered, &message);
                on_committed(p, &outcome, sha)
            }
            Committing::Done(r) => return r,
        }
    }
}

const PATH: &str = "clusters/camelot/apps/sui/release.yaml";

#[test]
fn a_carve_lands_as_exactly_one_commit_carrying_the_edited_bytes() {
    let w = GitManifestWriter::new(MockRepo::with(PATH, MANIFEST), "clusters/camelot");
    let p = AddressedProposal::carve(&coord(), "3Gi", "memory", "sui");

    let CommitOutcome::Committed(r) = commit(&w, &p).unwrap() else {
        panic!("a real change commits")
    };
    assert_eq!(r.commit_sha, "deadbeef");
    assert_eq!(r.addr, p.addr(), "the receipt echoes the proposal it discharged");

    let commits = w.repo().commits.borrow();
    assert_eq!(commits.len(), 1);
    let body = String::from_utf8(commits[0].1.clone()).unwrap();
    assert!(body.contains("memory: 3Gi # {\"$breathe\""), "the committed bytes carry the edit");
    assert!(body.contains("$imagepolicy"), "and still carry the neighbour's marker");
    assert!(commits[0].2.contains("512Mi -> 3Gi"), "the message names what moved");
    assert_eq!(r.rendered_addr, ContentAddr::of(&commits[0].1));
}

#[test]
fn re_proposing_a_converged_value_commits_nothing() {
    let w = GitManifestWriter::new(MockRepo::with(PATH, MANIFEST), "clusters/camelot");
    let p = AddressedProposal::carve(&coord(), "512Mi", "memory", "sui");
    assert!(matches!(commit(&w, &p).unwrap(), CommitOutcome::AlreadyCommitted { .. }));
    assert_eq!(w.repo().commits(), 0, "an idempotent tick must not produce a commit");
}

#[test]
fn the_blast_radius_wall_refuses_before_reading_anything() {
    let w = GitManifestWriter::new(MockRepo::with(PATH, MANIFEST), "clusters/prod");
    let p = AddressedProposal::carve(&coord(), "3Gi", "memory", "sui");
    assert!(matches!(commit(&w, &p), Err(WriterError::OutsideBlastRadius { .. })));
    assert_eq!(w.repo().commits(), 0);
    assert_eq!(*w.repo().reads.borrow(), 0);
}

#[test]
fn the_wall_is_segment_wise_so_a_sibling_prefix_never_slips_through() {
    assert!(within_prefix("clusters/camelot/a.yaml", "clusters/camelot"));
    assert!(within_prefix("clusters/camelot/a.yaml", "clusters/camelot/"));
    assert!(!within_prefix("clusters/camelot-prod/a.yaml", "clusters/camelot"));
    assert!(!within_prefix("anything", ""));
}

#[test]
fn a_dirty_tree_is_refused_rather_than_committed_on_top_of() {
    let mut repo = MockRepo::with(PATH, MANIFEST);
    repo.clean = false;
    let w = GitManifestWriter::new(repo, "clusters/camelot");
    let p = AddressedProposal::carve(&coord(), "3Gi", "memory", "sui");
    assert_eq!(commit(&w, &p), Err(WriterError::RepoNotClean));
    assert_eq!(w.repo().commits(), 0);
}

#[test]
fn an_unanchorable_edit_never_reaches_the_commit_path() {
    let w = GitManifestWriter::new(MockRepo::with(PATH, "spec: {}\n"), "clusters/camelot");
    let p = AddressedProposal::carve(&coord(), "3Gi", "memory", "sui");
    assert!(matches!(commit(&w, &p), Err(WriterError::Unanchorable { .. })));
    assert_eq!(w.repo().commits(), 0);
}

// ─────────────────────── further cases ───────────────────────

#[test]
fn a_proposal_is_addressed_by_its_canonical_text() {
    let p = AddressedProposal::carve(&ManifestCoordinate::new("a/\"b\".yaml", "m\n"), "3Gi", "memory", "sui");
    let canonical = "{\"path\":\"a/\\\"b\\\".yaml\",\"assignments\":[{\"marker\":\"m\\n\",\"value\":\"3Gi\"}],\"origin\":{\"origin\":\"carve\",\"resource\":\"memory\",\"container\":\"sui\"}}";
    assert_eq!(p.addr(), ContentAddr::of(canonical.as_bytes()));
    assert_eq!(p.addr().as_bytes(), blake3::hash(canonical.as_bytes()).as_bytes());
}

#[test]
fn several_scalars_are_set_all_or_none() {
    let src = "a: 1 # {\"$breathe\": \"x\"}\nb: 2 # {\"$breathe\": \"y\"}\n";
    let of = |m: &str, v: &str| ScalarAssignment { marker: m.into(), value: v.into() };
    let done = apply_all(src.as_bytes(), &[of("x", "7"), of("y", "2")]).unwrap();
    assert_eq!(done.changes.len(), 1);
    assert_eq!(done.already_correct, 1);
    assert_eq!(
        String::from_utf8(done.rendered.clone()).unwrap(),
        "a: 7 # {\"$breathe\": \"x\"}\nb: 2 # {\"$breathe\": \"y\"}\n"
    );
    let again = apply_all(&done.rendered, &[of("x", "7"), of("y", "2")]).unwrap();
    assert!(again.changes.is_empty());
    assert_eq!(again.rendered, done.rendered);
    assert!(apply_all(src.as_bytes(), &[of("x", "7"), of("z", "2")]).is_err());
}

#[test]
fn edit_errors_have_words() {
    assert_eq!(EditError::NotUtf8.message(), "manifest is not valid UTF-8");
    assert_eq!(
        EditError::MarkerNotFound { marker: "a\"b".into() }.message(),
        "no line carries the breathe marker \"a\\\"b\""
    );
    assert_eq!(
        EditError::MarkerAmbiguous { marker: "m".into(), lines: vec![1, 22] }.message(),
        "the breathe marker \"m\" appears on 2 lines ([1, 22]) — refusing to guess"
    );
    assert_eq!(
        EditError::NotAScalarAssignment { marker: "m".into(), line: 3 }.message(),
        "line 3 (marker \"m\") is not a `key: value` scalar assignment"
    );
}

#[test]
fn repository_errors_keep_a_conflict_apart() {
    assert_eq!(
        transport(RepoError::Conflict { detail: "moved".into() }),
        WriterError::Conflict { detail: "moved".into() }
    );
    assert_eq!(
        transport(RepoError::Io { detail: "disk".into() }),
        WriterError::Transport { detail: "manifest repo I/O failed: disk".into() }
    );
    assert_eq!(
        transport(RepoError::NotFound { path: "p".into() }),
        WriterError::Transport { detail: "no such manifest: p".into() }
    );
}

#[test]
fn a_commit_message_says_what_moved_and_why() {
    let p = AddressedProposal::carve(&ManifestCoordinate::new("a.yaml", "x"), "7", "memory", "sui");
    let done = apply_all("a: 1 # {\"$breathe\": \"x\"}\n".as_bytes(), p.assignments()).unwrap();
    assert_eq!(
        commit_message(&p, &done),
        format!(
            "breathe: reserve memory for sui\n\na.yaml:1 1 -> 7\n\nproposal: {}\n",
            p.addr().message()
        )
    );
}

fn rendered(src: &str, marker: &str, value: &str) -> (ScalarEdit, String) {
    match set(src, marker, value) {
        Ok(EditOutcome::Changed { edit, rendered }) => (edit, String::from_utf8(rendered).unwrap()),
        other => panic!("{src:?} was not changed: {other:?}"),
    }
}

#[test]
fn the_whole_trailing_comment_survives() {
    let (edit, after) = rendered("memory: 512Mi # keep # {\"$breathe\": \"m\"}\n", "m", "3Gi");
    assert_eq!(edit, ScalarEdit { line: 1, from: "512Mi".into(), to: "3Gi".into() });
    assert_eq!(after, "memory: 3Gi # keep # {\"$breathe\": \"m\"}\n");
    let (edit, after) = rendered("memory: 512Mi # {\"$breathe\": \"m\"} # keep\n", "m", "3Gi");
    assert_eq!(edit.from, "512Mi");
    assert_eq!(after, "memory: 3Gi # {\"$breathe\": \"m\"} # keep\n");
}

#[test]
fn a_hash_inside_a_value_belongs_to_it() {
    for (src, from, after) in [
        ("c: #fff # {\"$breathe\": \"m\"}\n", "#fff", "c: x # {\"$breathe\": \"m\"}\n"),
        ("u: http://h/p#frag # {\"$breathe\": \"m\"}\n", "http://h/p#frag", "u: x # {\"$breathe\": \"m\"}\n"),
        ("k: \"a # b\" # {\"$breathe\": \"m\"}\n", "a # b", "k: \"x\" # {\"$breathe\": \"m\"}\n"),
        ("k: 'it''s # b' # {\"$breathe\": \"m\"}\n", "it''s # b", "k: 'x' # {\"$breathe\": \"m\"}\n"),
        ("k: \"a\\\" # b\" # {\"$breathe\": \"m\"}\n", "a\\\" # b", "k: \"x\" # {\"$breathe\": \"m\"}\n"),
        ("k: it's 5\" # {\"$breathe\": \"m\"}\n", "it's 5\"", "k: x # {\"$breathe\": \"m\"}\n"),
    ] {
        let (edit, got) = rendered(src, "m", "x");
        assert_eq!(edit.from, from);
        assert_eq!(got, after);
    }
}

#[test]
fn only_the_marker_comment_anchors() {
    for src in [
        "a: \"m\" # {\"$breathe\": \"other\"}\n",
        "a: '{\"$breathe\": \"m\"}'\n",
        "a: '# {\"$breathe\": \"m\"}'\n",
        "a: 5 # $breathe \"m\"\n",
        "",
    ] {
        assert_eq!(set(src, "m", "x"), Err(EditError::MarkerNotFound { marker: "m".into() }), "{src:?}");
    }
}

#[test]
fn a_marker_object_may_be_written_in_any_json_way() {
    for comment in [
        "# {\"$breathe\":\"m\"}",
        "#{\"$breathe\":\"m\"}",
        "# { \"$breathe\" : \"m\" }",
        "# {\t\"$breathe\"\t:\t\"m\"\t}",
        "# {\"$breathe\": \"m\", \"owner\": \"sui\"}",
        "# {\"owner\": \"sui\", \"$breathe\": \"m\"}",
        "# keep { \"$breathe\" : \"m\" , \"x\": 1 } # keep",
    ] {
        let (edit, after) = rendered(&format!("k: 1 {comment}\n"), "m", "7");
        assert_eq!(edit, ScalarEdit { line: 1, from: "1".into(), to: "7".into() }, "{comment}");
        assert_eq!(after, format!("k: 7 {comment}\n"));
    }
}

#[test]
fn a_comment_that_only_mentions_a_marker_is_no_anchor() {
    for comment in [
        "# \"$breathe\": \"m\"",
        "# {\"$breathe\": \"m\"",
        "# {\"$breathe\": \"mm\"}",
        "# {\"$breathe\": m}",
        "# {\"$breathe\" \"m\"}",
        "# {} \"$breathe: m\"",
    ] {
        let src = format!("k: 1 {comment}\n");
        assert_eq!(set(&src, "m", "7"), Err(EditError::MarkerNotFound { marker: "m".into() }), "{src:?}");
    }
}

#[test]
fn a_marked_comment_needs_no_blank_in_front() {
    for (src, from, after) in [
        ("m: 1# {\"$breathe\": \"m\"}\n", "1", "m: 7# {\"$breathe\": \"m\"}\n"),
        ("m:1# {\"$breathe\": \"m\"}\n", "1", "m:7# {\"$breathe\": \"m\"}\n"),
        ("m: 1#{\"$breathe\":\"m\"}\n", "1", "m: 7#{\"$breathe\":\"m\"}\n"),
        ("m: \"v\"# {\"$breathe\": \"m\"}\n", "v", "m: \"7\"# {\"$breathe\": \"m\"}\n"),
        ("m: 'a # b'# {\"$breathe\": \"m\"}\n", "a # b", "m: '7'# {\"$breathe\": \"m\"}\n"),
        ("c: #fff# {\"$breathe\": \"m\"}\n", "#fff", "c: 7# {\"$breathe\": \"m\"}\n"),
        ("u: h/p#frag# {\"$breathe\": \"m\"}\n", "h/p#frag", "u: 7# {\"$breathe\": \"m\"}\n"),
        ("a: x#{\"$breathe\": \"m\"} # real\n", "x", "a: 7#{\"$breathe\": \"m\"} # real\n"),
        ("a: x # real#{\"$breathe\": \"m\"}\n", "x", "a: 7 # real#{\"$breathe\": \"m\"}\n"),
    ] {
        let (edit, got) = rendered(src, "m", "7");
        assert_eq!(edit.from, from, "{src:?}");
        assert_eq!(got, after);
        // a value that was set is read back
        assert!(matches!(set(&got, "m", "7"), Ok(EditOutcome::Unchanged { .. })), "{got:?}");
    }
}

#[test]
fn a_value_that_was_set_is_read_back_unless_it_starts_a_comment() {
    for value in ["5\"", "{\"$breathe\":\"x\"}", "h/p#frag", "it's"] {
        let (_, got) = rendered("k: 1# {\"$breathe\": \"m\"}\n", "m", value);
        assert_eq!(got, format!("k: {value}# {{\"$breathe\": \"m\"}}\n"));
        assert!(matches!(set(&got, "m", value), Ok(EditOutcome::Unchanged { .. })), "{got:?}");
    }
    let (_, got) = rendered("k: 1 # {\"$breathe\": \"m\"}\n", "m", "x#{\"$breathe\":\"x\"}");
    let (edit, _) = rendered(&got, "m", "7");
    assert_eq!(edit.from, "x");
}

#[test]
fn a_token_in_front_of_the_comment_is_no_anchor() {
    let (edit, after) = rendered("$breathe: 5 # {\"$breathe\": \"m\"}\n", "m", "7");
    assert_eq!(edit.from, "5");
    assert_eq!(after, "$breathe: 7 # {\"$breathe\": \"m\"}\n");
    let (edit, _) = rendered("a: $breathe # {\"$breathe\": \"m\"}\n", "m", "7");
    assert_eq!(edit.from, "$breathe");
}

#[test]
fn the_key_is_kept_whole() {
    for (src, from, after) in [
        ("http://x: 5 # {\"$breathe\": \"m\"}\n", "5", "http://x: 7 # {\"$breathe\": \"m\"}\n"),
        ("\"a: b\": 5 # {\"$breathe\": \"m\"}\n", "5", "\"a: b\": 7 # {\"$breathe\": \"m\"}\n"),
        ("\"a # b\": 5 # {\"$breathe\": \"m\"}\n", "5", "\"a # b\": 7 # {\"$breathe\": \"m\"}\n"),
        ("- image: a:1 # {\"$breathe\": \"m\"}\n", "a:1", "- image: 7 # {\"$breathe\": \"m\"}\n"),
        ("memory:512Mi # {\"$breathe\": \"m\"}\n", "512Mi", "memory:7 # {\"$breathe\": \"m\"}\n"),
    ] {
        let (edit, got) = rendered(src, "m", "7");
        assert_eq!(edit.from, from);
        assert_eq!(got, after);
    }
}

#[test]
fn a_marked_line_without_a_value_is_refused() {
    for src in [
        "# {\"$breathe\": \"m\"}\n",
        "  # {\"$breathe\": \"m\"}\n",
        "key: # {\"$breathe\": \"m\"}\n",
        "key: #{\"$breathe\": \"m\"}\n",
        "key: # keep # {\"$breathe\": \"m\"}\n",
        "- item # a: b {\"$breathe\": \"m\"}\n",
        "item# {\"$breathe\": \"m\"}\n",
        "key: #{\"$breathe\": \"m\"} # note\n",
    ] {
        assert_eq!(
            set(src, "m", "x"),
            Err(EditError::NotAScalarAssignment { marker: "m".into(), line: 1 }),
            "{src:?}"
        );
    }
}

#[test]
fn equal_content_has_equal_addresses() {
    let of = |v: &str| AddressedProposal::carve(&ManifestCoordinate::new("a.yaml", "m"), v, "memory", "sui");
    assert_eq!(of("3Gi").addr(), of("3Gi").addr());
    assert_ne!(of("3Gi").addr(), of("4Gi").addr());
}
