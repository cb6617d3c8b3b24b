use cochlea::base64::base64_encode;
use cochlea::json::Json;
use cochlea::server::Server;
use cochlea::tools::{
    bool_or, check_not_aliased, check_overlay_options, diff_outcome, lint_outcome, panic_message, require_str, spectrogram_outcome,
    write_parent, CanonicalPath, RootDir, ToolCtx, ToolOutcome, INLINE_PNG_CAP,
};

fn path(parts: &[&str]) -> CanonicalPath {
    CanonicalPath { components: parts.iter().map(|p| p.to_string()).collect() }
}

fn confined() -> ToolCtx {
    ToolCtx { root: Some(RootDir { path: path(&["/", "tmp", "inside"]), display: "/tmp/inside".to_string() }) }
}

fn object(members: Vec<(&str, Json)>) -> Json {
    Json::Object(members.into_iter().map(|(k, v)| (k.to_string(), v)).collect())
}

#[test]
fn root_confinement_is_component_wise() {
    let ctx = confined();
    assert!(ctx.check_root(&path(&["/", "tmp", "inside", "a.wav"]), "a.wav", "p").is_ok());
    assert!(ctx.check_root(&path(&["/", "tmp", "inside"]), ".", "p").is_ok());
    match ctx.check_root(&path(&["/", "tmp", "insider", "a.wav"]), "../insider/a.wav", "audio_path") {
        Err(ToolOutcome::InvalidParams(msg)) => assert_eq!(
            msg,
            "audio_path \"../insider/a.wav\" resolves outside this server's --root (/tmp/inside)"
        ),
        other => panic!("expected a refusal, got {other:?}"),
    }
    assert!(ToolCtx::unconfined().check_root(&path(&["/", "etc"]), "/etc", "p").is_ok());
}

#[test]
fn reads_fail_when_canonicalization_fails_and_are_confined_when_it_succeeds() {
    let ctx = confined();
    match ctx.resolve_read("missing.wav", "audio_path", Err("No such file or directory".to_string())) {
        Err(ToolOutcome::Failed(msg)) => assert_eq!(msg, "reading missing.wav: No such file or directory"),
        other => panic!("{other:?}"),
    }
    let inside = path(&["/", "tmp", "inside", "a.wav"]);
    assert_eq!(ctx.resolve_read("a.wav", "p", Ok(inside.clone())).unwrap(), inside);
    match ctx.resolve_read("/tmp/outside.wav", "p", Ok(path(&["/", "tmp", "outside.wav"]))) {
        Err(ToolOutcome::InvalidParams(msg)) => assert!(msg.contains("--root"), "{msg}"),
        other => panic!("{other:?}"),
    }
}

#[test]
fn writes_join_the_file_name_to_the_canonical_parent() {
    let ctx = confined();
    let r = ctx.resolve_write("/tmp/inside/./new.png", "out_path", None, Ok(path(&["/", "tmp", "inside"])));
    assert_eq!(r.unwrap(), path(&["/", "tmp", "inside", "new.png"]));
    match ctx.resolve_write("/tmp/inside/../escape.png", "out_path", None, Ok(path(&["/", "tmp"]))) {
        Err(ToolOutcome::InvalidParams(msg)) => assert!(msg.contains("--root"), "{msg}"),
        other => panic!("{other:?}"),
    }
    match ctx.resolve_write("nowhere/x.png", "out_path", None, Err("not found".to_string())) {
        Err(ToolOutcome::Failed(msg)) => assert_eq!(msg, "resolving out_path nowhere/x.png: not found"),
        other => panic!("{other:?}"),
    }
}

#[test]
fn an_existing_write_target_resolves_through_its_link() {
    let ctx = ToolCtx::unconfined();
    let master = path(&["/", "tmp", "d", "master.wav"]);
    let resolved = ctx
        .resolve_write("/tmp/d/take.wav", "out_path", Some(master.clone()), Ok(path(&["/", "tmp", "d"])))
        .unwrap();
    assert_eq!(resolved, master);
    match check_not_aliased(&resolved, &master, "out_path must not alias audio_path") {
        Err(ToolOutcome::InvalidParams(msg)) => assert_eq!(msg, "out_path must not alias audio_path"),
        other => panic!("{other:?}"),
    }
    assert!(check_not_aliased(&path(&["/", "tmp", "d", "ok.ron"]), &master, "x").is_ok());
}

#[test]
fn a_write_path_without_a_file_name_is_refused() {
    let ctx = ToolCtx::unconfined();
    for raw in ["..", "/tmp/..", "/"] {
        match ctx.resolve_write(raw, "out_path", None, Ok(path(&["/"]))) {
            Err(ToolOutcome::InvalidParams(msg)) => {
                assert_eq!(msg, format!("out_path {raw:?} has no file name"))
            }
            other => panic!("{raw}: {other:?}"),
        }
    }
}

#[test]
fn the_write_parent_defaults_to_the_current_directory() {
    assert_eq!(write_parent("/tmp/x/out.wav"), "/tmp/x");
    assert_eq!(write_parent("out.wav"), ".");
    assert_eq!(write_parent("sub/out.wav"), "sub");
    assert_eq!(write_parent("/"), ".");
}

#[test]
fn arguments_are_read_by_type() {
    let args = object(vec![
        ("audio_path", Json::text("a.wav")),
        ("verify", Json::Bool(true)),
        ("sheet", Json::text("yes")),
        ("n", Json::Null),
    ]);
    assert_eq!(require_str(&args, "audio_path").unwrap(), "a.wav");
    match require_str(&args, "verify") {
        Err(ToolOutcome::InvalidParams(msg)) => assert_eq!(msg, "missing required argument \"verify\""),
        other => panic!("{other:?}"),
    }
    assert!(require_str(&args, "out_path").is_err());
    assert!(require_str(&Json::Null, "audio_path").is_err());
    assert!(bool_or(&args, "verify", false));
    assert!(!bool_or(&args, "sheet", false));
    assert!(bool_or(&args, "missing", true));
    assert!(!bool_or(&args, "n", false));
}

#[test]
fn small_images_come_back_inline() {
    let png = vec![1u8, 2, 3, 4];
    match spectrogram_outcome(&png, "spectrogram 2x2".to_string(), false) {
        ToolOutcome::OkContent(blocks) => {
            assert_eq!(blocks.len(), 2);
            assert_eq!(
                blocks[0],
                object(vec![
                    ("type", Json::text("image")),
                    ("data", Json::Str(base64_encode(&png))),
                    ("mimeType", Json::text("image/png")),
                ])
            );
            assert_eq!(
                blocks[1],
                object(vec![("type", Json::text("text")), ("text", Json::text("spectrogram 2x2 (inline)"))])
            );
        }
        other => panic!("{other:?}"),
    }
}

#[test]
fn large_images_need_a_file() {
    let png = vec![0u8; INLINE_PNG_CAP + 1];
    match spectrogram_outcome(&png, "s".to_string(), false) {
        ToolOutcome::Failed(msg) => assert_eq!(
            msg,
            "image is 700001 bytes, over the 700000-byte inline cap, and no out_path was given — pass out_path (or sheet: true, which tiles long audio into a denser image)"
        ),
        other => panic!("{other:?}"),
    }
    assert_eq!(
        spectrogram_outcome(&png, "s -> a.png".to_string(), true),
        ToolOutcome::OkText("s -> a.png (too large to inline)".to_string())
    );
    let at_cap = vec![0u8; INLINE_PNG_CAP];
    assert!(matches!(spectrogram_outcome(&at_cap, "s".to_string(), false), ToolOutcome::OkContent(_)));
}

#[test]
fn diff_images_are_inlined_or_omitted() {
    assert_eq!(diff_outcome("same".to_string(), None), ToolOutcome::OkText("same".to_string()));
    assert_eq!(
        diff_outcome("t".to_string(), Some(vec![0u8; INLINE_PNG_CAP + 1])),
        ToolOutcome::OkText("t\n(diff spectrogram exceeded the inline size cap; omitted)".to_string())
    );
    match diff_outcome("t".to_string(), Some(vec![7u8])) {
        ToolOutcome::OkContent(blocks) => assert_eq!(
            blocks[1],
            object(vec![
                ("type", Json::text("text")),
                (
                    "text",
                    Json::text("t\ndiff spectrogram inline: red = louder in B, blue = quieter in B, black = unchanged (saturates at 24 dB)")
                ),
            ])
        ),
        other => panic!("{other:?}"),
    }
}

#[test]
fn lint_verdicts() {
    assert_eq!(lint_outcome(0, 0, "[]".to_string()), ToolOutcome::OkText("ok: no lint findings".to_string()));
    assert_eq!(lint_outcome(2, 1, "r".to_string()), ToolOutcome::Failed("r".to_string()));
    assert_eq!(lint_outcome(2, 0, "r".to_string()), ToolOutcome::OkText("r".to_string()));
}

#[test]
fn a_contained_panic_says_the_server_survived() {
    assert_eq!(
        panic_message("probe_audio", "index out of bounds"),
        "internal error: the probe_audio tool panicked and was contained (index out of bounds). This is a bug in cochlea; the server is still running and can take further requests."
    );
}

#[test]
fn servers_carry_their_confinement() {
    assert!(Server::new().ctx().root.is_none());
    let s = Server::with_root(RootDir { path: path(&["/", "srv"]), display: "/srv".to_string() });
    assert_eq!(s.ctx().root.as_ref().unwrap().display, "/srv");
}

#[test]
fn refusals_quote_paths_as_debug_does() {
    let ctx = confined();
    for raw in ["caf\u{e9}.wav", "tab\there.wav", "zero\u{200b}width.wav", "del\u{7f}.wav", "q\"uote'.wav", "combining\u{301}.wav"] {
        match ctx.check_root(&path(&["/", "elsewhere"]), raw, "p") {
            Err(ToolOutcome::InvalidParams(msg)) => assert_eq!(
                msg,
                format!("p {raw:?} resolves outside this server's --root (/tmp/inside)")
            ),
            other => panic!("{other:?}"),
        }
    }
}

#[test]
fn tool_ctx_root_confinement() {
    // The root `/tmp/t/inside`; canonical results are what the filesystem
    // gives for each spelling.
    let ctx = ToolCtx {
        root: Some(RootDir { path: path(&["/", "tmp", "t", "inside"]), display: "/tmp/t/inside".to_string() }),
    };
    let inside = path(&["/", "tmp", "t", "inside", "a.wav"]);
    assert!(ctx.resolve_read("/tmp/t/inside/a.wav", "p", Ok(inside.clone())).is_ok());
    // A dot-dot spelling of the same inside file still resolves fine.
    assert!(ctx.resolve_read("/tmp/t/inside/../inside/a.wav", "p", Ok(inside)).is_ok());
    match ctx.resolve_read("/tmp/t/outside.wav", "p", Ok(path(&["/", "tmp", "t", "outside.wav"]))) {
        Err(ToolOutcome::InvalidParams(msg)) => assert!(msg.contains("--root"), "{msg}"),
        _ => panic!("outside read must be refused as InvalidParams"),
    }
    // Escape-by-dot-dot on a write is refused too.
    match ctx.resolve_write("/tmp/t/inside/../escape.png", "p", None, Ok(path(&["/", "tmp", "t"]))) {
        Err(ToolOutcome::InvalidParams(msg)) => assert!(msg.contains("--root"), "{msg}"),
        _ => panic!("outside write must be refused as InvalidParams"),
    }
    // Writes to a not-yet-existing file inside the root are fine.
    assert!(ctx.resolve_write("/tmp/t/inside/new.png", "p", None, Ok(path(&["/", "tmp", "t", "inside"]))).is_ok());
}

#[test]
fn alias_detection_is_canonical_not_string_equality() {
    let ctx = ToolCtx::unconfined();
    let file = path(&["/", "tmp", "a", "s.ron"]);
    let read = ctx.resolve_read("/tmp/a/s.ron", "p", Ok(file.clone())).unwrap();
    let write = ctx.resolve_write("/tmp/a/./s.ron", "p", Some(file), Ok(path(&["/", "tmp", "a"]))).unwrap();
    assert_eq!(read, write, "aliased spellings must resolve equal");
}

#[test]
fn overlays_cannot_be_drawn_on_a_contact_sheet() {
    assert!(check_overlay_options(true, false).is_ok());
    assert!(check_overlay_options(false, true).is_ok());
    assert!(check_overlay_options(false, false).is_ok());
    match check_overlay_options(true, true) {
        Err(ToolOutcome::InvalidParams(m)) => {
            assert_eq!(m, "annotate and sheet are incompatible (overlays draw on the single-strip image)")
        }
        other => panic!("{other:?}"),
    }
}
