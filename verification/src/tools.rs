//! The decisions the tool server makes around each tool call: reading
//! arguments, confining paths to the optional `--root` directory, refusing
//! an output path that aliases an input, and shaping results (inline image
//! or file-only, lint verdicts, contained panics). Canonicalizing a path
//! touches the filesystem, so the caller does it and hands the result in.

use vstd::prelude::*;
use crate::base64::{b64, base64_encode};
use crate::json::{Json, bool_of, field, member_is_string, string_of};
use crate::text::{debug_quoted, decimal, push_debug_quoted, push_decimal, str_eq};

verus! {

/// A tool's result before it is wrapped into the `tools/call` envelope.
#[derive(Debug, PartialEq)]
pub enum ToolOutcome {
    /// Ran to completion; `isError: false`.
    OkText(String),
    /// Ran to completion with pre-built content blocks (an inline image
    /// plus a text summary); `isError: false`.
    OkContent(Vec<Json>),
    /// Ran, but the tool-level operation failed; still a success response,
    /// with `isError: true` and the reason as text.
    Failed(String),
    /// The arguments were unusable before any work could start; answered
    /// as a JSON-RPC Invalid Params error.
    InvalidParams(String),
}

/// A canonical (absolute, symlink-free) path, as its components from the
/// root down.
#[derive(Debug, Clone, PartialEq)]
pub struct CanonicalPath {
    pub components: Vec<String>,
}

impl CanonicalPath {
    /// The components' texts.
    pub open spec fn parts(self) -> Seq<Seq<char>> {
        self.components@.map_values(|c: String| c@)
    }

    /// Whether `base`'s components are a prefix of this path's: the
    /// component-wise containment that `Path::starts_with` tests.
    pub fn starts_with(&self, base: &CanonicalPath) -> (r: bool)
        ensures
            r == is_prefix(base.parts(), self.parts()),
    {
        let n = base.components.len();
        if n > self.components.len() {
            return false;
        }
        let mut i: usize = 0;
        while i < n
            invariant
                n == base.components@.len(),
                n <= self.components@.len(),
                i <= n,
                forall|j: int| 0 <= j < i ==> #[trigger] self.parts()[j] == base.parts()[j],
            decreases n - i,
        {
            if !str_eq(self.components[i].as_str(), base.components[i].as_str()) {
                assert(self.parts()[i as int] != base.parts()[i as int]);
                return false;
            }
            i += 1;
        }
        true
    }

    /// Whether the two paths are the same, component by component.
    pub fn same_as(&self, other: &CanonicalPath) -> (r: bool)
        ensures
            r == (self.parts() == other.parts()),
    {
        if self.components.len() != other.components.len() {
            assert(self.parts().len() != other.parts().len());
            return false;
        }
        let r = self.starts_with(other);
        if r {
            assert(self.parts() =~= other.parts());
        }
        r
    }
}

/// Whether `base` is a prefix of `path`.
pub open spec fn is_prefix(base: Seq<Seq<char>>, path: Seq<Seq<char>>) -> bool {
    base.len() <= path.len() && forall|j: int| 0 <= j < base.len() ==> #[trigger] path[j] == base[j]
}

/// The `--root` confinement directory: its canonical path, and the text
/// shown for it in refusals.
#[derive(Debug, Clone)]
pub struct RootDir {
    pub path: CanonicalPath,
    pub display: String,
}

/// Per-server tool context: the optional `--root` confinement directory.
/// When set, every caller-supplied path, read or written, must resolve
/// inside it.
#[derive(Debug)]
pub struct ToolCtx {
    pub root: Option<RootDir>,
}

/// The refusal for a path outside the root.
pub open spec fn outside_root_message(what: Seq<char>, raw: Seq<char>, display: Seq<char>) -> Seq<
    char,
> {
    what + " "@ + debug_quoted(raw) + " resolves outside this server's --root ("@ + display + ")"@
}

/// The refusal for a write path with no file name.
pub open spec fn no_file_name_message(what: Seq<char>, raw: Seq<char>) -> Seq<char> {
    what + " "@ + debug_quoted(raw) + " has no file name"@
}

/// The final component of `raw` read as a path (`Path::file_name`).
pub uninterp spec fn path_file_name(raw: Seq<char>) -> Option<Seq<char>>;

/// The parent of `raw` read as a path (`Path::parent`).
pub uninterp spec fn path_parent(raw: Seq<char>) -> Option<Seq<char>>;

/// `std::path::Path::file_name` on `raw`: the final component, or `None`
/// when the path ends in `..` or has no final component (empty, or a bare
/// root). The component of a `&str` path is valid UTF-8, so the lossy
/// conversion is exact. The contract names the result and says no more.
#[verifier::external_body]
fn file_name_of(raw: &str) -> (r: Option<String>)
    ensures
        match r {
            Some(n) => path_file_name(raw@) == Some(n@),
            None => path_file_name(raw@) is None,
        },
{
    match std::path::Path::new(raw).file_name() {
        Some(n) => Some(n.to_string_lossy().into_owned()),
        None => None,
    }
}

/// `std::path::Path::parent` on `raw`: the path without its final
/// component, or `None` for a root or an empty path. A prefix of a `&str`
/// path is valid UTF-8, so the lossy conversion is exact. The contract
/// names the result and says no more.
#[verifier::external_body]
fn parent_of(raw: &str) -> (r: Option<String>)
    ensures
        match r {
            Some(p) => path_parent(raw@) == Some(p@),
            None => path_parent(raw@) is None,
        },
{
    match std::path::Path::new(raw).parent() {
        Some(p) => Some(p.to_string_lossy().into_owned()),
        None => None,
    }
}

/// The directory a write to `raw` lands in: its parent, or `.` when it
/// has none or an empty one.
pub open spec fn spec_write_parent(raw: Seq<char>) -> Seq<char> {
    match path_parent(raw) {
        Some(p) => if p.len() > 0 {
            p
        } else {
            "."@
        },
        None => "."@,
    }
}

/// The directory the caller must canonicalize before [`ToolCtx::resolve_write`].
pub fn write_parent(raw: &str) -> (r: String)
    ensures
        r@ == spec_write_parent(raw@),
{
    match parent_of(raw) {
        Some(p) => {
            if p.unicode_len() > 0 {
                p
            } else {
                String::from_str(".")
            }
        },
        None => String::from_str("."),
    }
}

impl ToolCtx {
    /// A context with no confinement.
    pub fn unconfined() -> (c: ToolCtx)
        ensures
            c.root is None,
    {
        ToolCtx { root: None }
    }

    /// Whether this context lets a tool touch the path with components `parts`.
    pub open spec fn admits_parts(self, parts: Seq<Seq<char>>) -> bool {
        match self.root {
            None => true,
            Some(root) => is_prefix(root.path.parts(), parts),
        }
    }

    /// Whether this context lets a tool touch `path`.
    pub open spec fn admits(self, path: CanonicalPath) -> bool {
        self.admits_parts(path.parts())
    }

    /// Refuses `canonical` (given by the caller as `raw`, for the argument
    /// `what`) when it lies outside the root.
    pub fn check_root(&self, canonical: &CanonicalPath, raw: &str, what: &str) -> (r: Result<
        (),
        ToolOutcome,
    >)
        ensures
            self.admits(*canonical) ==> r is Ok,
            !self.admits(*canonical) ==> (r matches Err(ToolOutcome::InvalidParams(m))
                && m@ == outside_root_message(what@, raw@, self.root->0.display@)),
    {
        match &self.root {
            None => Ok(()),
            Some(root) => {
                if canonical.starts_with(&root.path) {
                    Ok(())
                } else {
                    let mut m = String::from_str(what);
                    m.append(" ");
                    push_debug_quoted(&mut m, raw);
                    m.append(" resolves outside this server's --root (");
                    m.append(root.display.as_str());
                    m.append(")");
                    Err(ToolOutcome::InvalidParams(m))
                }
            },
        }
    }

    /// `r` is what reading `raw` (argument `what`) gives when the caller's
    /// canonicalization of it came out as `canonical`.
    pub open spec fn read_result(
        self,
        raw: Seq<char>,
        what: Seq<char>,
        canonical: Result<CanonicalPath, String>,
        r: Result<CanonicalPath, ToolOutcome>,
    ) -> bool {
        match canonical {
            Err(e) => r matches Err(ToolOutcome::Failed(m)) && m@ == "reading "@ + raw + ": "@ + e@,
            Ok(c) => if self.admits(c) {
                r == Ok::<CanonicalPath, ToolOutcome>(c)
            } else {
                r matches Err(ToolOutcome::InvalidParams(m)) && m@ == outside_root_message(
                    what,
                    raw,
                    self.root->0.display@,
                )
            },
        }
    }

    /// `r` is what writing `raw` (argument `what`) gives when the caller's
    /// canonicalization of the existing file is `existing`, and of its
    /// parent directory `canonical_parent`.
    pub open spec fn write_result(
        self,
        raw: Seq<char>,
        what: Seq<char>,
        existing: Option<CanonicalPath>,
        canonical_parent: Result<CanonicalPath, String>,
        r: Result<CanonicalPath, ToolOutcome>,
    ) -> bool {
        match path_file_name(raw) {
            None => r matches Err(ToolOutcome::InvalidParams(m)) && m@ == no_file_name_message(
                what,
                raw,
            ),
            Some(name) => match existing {
                Some(c) => if self.admits(c) {
                    r == Ok::<CanonicalPath, ToolOutcome>(c)
                } else {
                    r matches Err(ToolOutcome::InvalidParams(m)) && m@ == outside_root_message(
                        what,
                        raw,
                        self.root->0.display@,
                    )
                },
                None => match canonical_parent {
                    Err(e) => r matches Err(ToolOutcome::Failed(m)) && m@ == "resolving "@ + what
                        + " "@ + raw + ": "@ + e@,
                    Ok(p) => if self.admits_parts(p.parts().push(name)) {
                        r matches Ok(c) && c.parts() == p.parts().push(name)
                    } else {
                        r matches Err(ToolOutcome::InvalidParams(m)) && m@ == outside_root_message(
                            what,
                            raw,
                            self.root->0.display@,
                        )
                    },
                },
            },
        }
    }

    /// A path to be read: `canonical` is the caller's canonicalization of
    /// `raw` (which fails when the file does not exist); it must then lie
    /// inside the root.
    pub fn resolve_read(
        &self,
        raw: &str,
        what: &str,
        canonical: Result<CanonicalPath, String>,
    ) -> (r: Result<CanonicalPath, ToolOutcome>)
        ensures
            self.read_result(raw@, what@, canonical, r),
            r matches Ok(c) ==> self.admits(c),
    {
        match canonical {
            Err(e) => {
                let mut m = String::from_str("reading ");
                m.append(raw);
                m.append(": ");
                m.append(e.as_str());
                Err(ToolOutcome::Failed(m))
            },
            Ok(c) => match self.check_root(&c, raw, what) {
                Ok(()) => Ok(c),
                Err(refusal) => Err(refusal),
            },
        }
    }

    /// A path to be written: it must name a file. When the file already
    /// exists, `existing` is the caller's canonicalization of `raw` itself,
    /// which follows a symlinked final component, so a link to an input is
    /// recognized as that input. Otherwise `canonical_parent` is the
    /// caller's canonicalization of [`write_parent`]`(raw)`, and the file
    /// name is joined to it. Either way the result must lie inside the root.
    pub fn resolve_write(
        &self,
        raw: &str,
        what: &str,
        existing: Option<CanonicalPath>,
        canonical_parent: Result<CanonicalPath, String>,
    ) -> (r: Result<CanonicalPath, ToolOutcome>)
        ensures
            self.write_result(raw@, what@, existing, canonical_parent, r),
            r matches Ok(c) ==> self.admits(c),
    {
        let name = match file_name_of(raw) {
            Some(n) => n,
            None => {
                let mut m = String::from_str(what);
                m.append(" ");
                push_debug_quoted(&mut m, raw);
                m.append(" has no file name");
                return Err(ToolOutcome::InvalidParams(m));
            },
        };
        if let Some(c) = existing {
            return match self.check_root(&c, raw, what) {
                Ok(()) => Ok(c),
                Err(refusal) => Err(refusal),
            };
        }
        match canonical_parent {
            Err(e) => {
                let mut m = String::from_str("resolving ");
                m.append(what);
                m.append(" ");
                m.append(raw);
                m.append(": ");
                m.append(e.as_str());
                Err(ToolOutcome::Failed(m))
            },
            Ok(parent) => {
                let ghost name_view = name@;
                let mut components = parent.components;
                components.push(name);
                let joined = CanonicalPath { components };
                proof {
                    assert(joined.parts() =~= parent.parts().push(name_view));
                }
                match self.check_root(&joined, raw, what) {
                    Ok(()) => Ok(joined),
                    Err(refusal) => Err(refusal),
                }
            },
        }
    }
}

/// Aliases are told by canonical path, not by spelling: a path read under
/// one spelling and written under another that canonicalizes to the same
/// existing file resolve to the same path.
pub proof fn lemma_aliased_spellings_resolve_equal(
    ctx: ToolCtx,
    read_raw: Seq<char>,
    read_what: Seq<char>,
    write_raw: Seq<char>,
    write_what: Seq<char>,
    c: CanonicalPath,
    parent: Result<CanonicalPath, String>,
    r: Result<CanonicalPath, ToolOutcome>,
    w: Result<CanonicalPath, ToolOutcome>,
)
    requires
        ctx.read_result(read_raw, read_what, Ok(c), r),
        ctx.write_result(write_raw, write_what, Some(c), parent, w),
        r is Ok,
        w is Ok,
    ensures
        r == w,
{
}

/// A file not yet written resolves to its canonical parent joined with its
/// file name: when that is where an existing input canonicalizes, the two
/// have the same components.
pub proof fn lemma_new_file_resolves_to_parent_and_name(
    ctx: ToolCtx,
    read_raw: Seq<char>,
    read_what: Seq<char>,
    write_raw: Seq<char>,
    write_what: Seq<char>,
    c: CanonicalPath,
    p: CanonicalPath,
    r: Result<CanonicalPath, ToolOutcome>,
    w: Result<CanonicalPath, ToolOutcome>,
)
    requires
        ctx.read_result(read_raw, read_what, Ok(c), r),
        ctx.write_result(write_raw, write_what, None, Ok(p), w),
        path_file_name(write_raw) matches Some(name) && p.parts().push(name) == c.parts(),
        r is Ok,
        w is Ok,
    ensures
        r->Ok_0.parts() == w->Ok_0.parts(),
{
}

/// The refusal for asking a spectrogram to be both annotated and tiled.
pub open spec fn overlay_conflict_message() -> Seq<char> {
    "annotate and sheet are incompatible (overlays draw on the single-strip image)"@
}

/// Analysis overlays draw on the single-strip image, so they cannot be
/// combined with a tiled contact sheet.
pub fn check_overlay_options(annotate: bool, sheet: bool) -> (r: Result<(), ToolOutcome>)
    ensures
        !(annotate && sheet) ==> r is Ok,
        annotate && sheet ==> (r matches Err(ToolOutcome::InvalidParams(m)) && m@
            == overlay_conflict_message()),
{
    if annotate && sheet {
        Err(
            ToolOutcome::InvalidParams(
                String::from_str(
                    "annotate and sheet are incompatible (overlays draw on the single-strip image)",
                ),
            ),
        )
    } else {
        Ok(())
    }
}

/// Refuses an output path that is the same file as an input: the input is
/// read in full before the output is written, so the call would appear to
/// succeed while destroying the input.
pub fn check_not_aliased(output: &CanonicalPath, input: &CanonicalPath, message: &str) -> (r:
    Result<(), ToolOutcome>)
    ensures
        output.parts() == input.parts() ==> (r matches Err(ToolOutcome::InvalidParams(m)) && m@
            == message@),
        output.parts() != input.parts() ==> r is Ok,
{
    if output.same_as(input) {
        Err(ToolOutcome::InvalidParams(String::from_str(message)))
    } else {
        Ok(())
    }
}

/// The refusal for a missing or non-string required argument.
pub open spec fn missing_argument_message(key: Seq<char>) -> Seq<char> {
    "missing required argument "@ + debug_quoted(key)
}

/// A required string argument, or an Invalid Params refusal naming it.
pub fn require_str<'a>(args: &'a Json, key: &str) -> (r: Result<&'a str, ToolOutcome>)
    ensures
        match string_of(field(*args, key@)) {
            Some(s) => r matches Ok(v) && v@ == s,
            None => r matches Err(ToolOutcome::InvalidParams(m)) && m@ == missing_argument_message(
                key@,
            ),
        },
{
    match args.get(key) {
        Some(v) => match v.as_str() {
            Some(s) => {
                return Ok(s);
            },
            None => {},
        },
        None => {},
    }
    let mut m = String::from_str("missing required argument ");
    push_debug_quoted(&mut m, key);
    Err(ToolOutcome::InvalidParams(m))
}

/// A boolean argument, or `default` when it is absent or not a boolean.
pub fn bool_or(args: &Json, key: &str, default: bool) -> (r: bool)
    ensures
        r == match bool_of(field(*args, key@)) {
            Some(b) => b,
            None => default,
        },
{
    match args.get(key) {
        Some(v) => match v.as_bool() {
            Some(b) => b,
            None => default,
        },
        None => default,
    }
}

/// Inline-image size cap, bytes of raw PNG (about 933 KB once in base64),
/// under typical MCP client message limits. Larger images are file-only.
pub const INLINE_PNG_CAP: usize = 700_000;

/// `b` is the content block `{"type": "text", "text": text}`.
pub open spec fn is_text_block(b: Json, text: Seq<char>) -> bool {
    b matches Json::Object(e) && e@.len() == 2 && member_is_string(e@, 0, "type"@, "text"@)
        && member_is_string(e@, 1, "text"@, text)
}

/// `b` is the content block carrying `png` inline:
/// `{"type": "image", "data": <base64 of png>, "mimeType": "image/png"}`.
pub open spec fn is_image_block(b: Json, png: Seq<u8>) -> bool {
    b matches Json::Object(e) && e@.len() == 3 && member_is_string(e@, 0, "type"@, "image"@)
        && member_is_string(e@, 1, "data"@, b64(png)) && member_is_string(
        e@,
        2,
        "mimeType"@,
        "image/png"@,
    )
}

/// The text content block.
pub fn text_block(text: String) -> (b: Json)
    ensures
        is_text_block(b, text@),
{
    let mut e: Vec<(String, Json)> = Vec::new();
    e.push((String::from_str("type"), Json::text("text")));
    e.push((String::from_str("text"), Json::Str(text)));
    Json::Object(e)
}

/// The inline PNG content block.
pub fn image_block(png: &[u8]) -> (b: Json)
    ensures
        is_image_block(b, png@),
{
    let mut e: Vec<(String, Json)> = Vec::new();
    e.push((String::from_str("type"), Json::text("image")));
    e.push((String::from_str("data"), Json::Str(base64_encode(png))));
    e.push((String::from_str("mimeType"), Json::text("image/png")));
    Json::Object(e)
}

/// The refusal for an image too large to inline with nowhere else to go.
pub open spec fn over_cap_message(len: nat) -> Seq<char> {
    "image is "@ + decimal(len) + " bytes, over the "@ + decimal(INLINE_PNG_CAP as nat)
        + "-byte inline cap, and no out_path was given — pass out_path (or sheet: true, which tiles long audio into a denser image)"@
}

/// The spectrogram tool's result for an encoded `png`: inline when it fits
/// the cap; otherwise file-only when it was `written` to `out_path`, else a
/// failure saying how to get it.
pub fn spectrogram_outcome(png: &[u8], summary: String, written: bool) -> (r: ToolOutcome)
    ensures
        png@.len() <= INLINE_PNG_CAP ==> (r matches ToolOutcome::OkContent(blocks)
            && blocks@.len() == 2 && is_image_block(blocks@[0], png@) && is_text_block(
            blocks@[1],
            summary@ + " (inline)"@,
        )),
        png@.len() > INLINE_PNG_CAP && !written ==> (r matches ToolOutcome::Failed(m) && m@
            == over_cap_message(png@.len())),
        png@.len() > INLINE_PNG_CAP && written ==> (r matches ToolOutcome::OkText(t) && t@ == summary@
            + " (too large to inline)"@),
{
    let mut summary = summary;
    if png.len() <= INLINE_PNG_CAP {
        summary.append(" (inline)");
        let mut blocks: Vec<Json> = Vec::new();
        blocks.push(image_block(png));
        blocks.push(text_block(summary));
        return ToolOutcome::OkContent(blocks);
    }
    if !written {
        let mut m = String::from_str("image is ");
        push_decimal(&mut m, png.len() as u64);
        m.append(" bytes, over the ");
        push_decimal(&mut m, INLINE_PNG_CAP as u64);
        m.append(
            "-byte inline cap, and no out_path was given — pass out_path (or sheet: true, which tiles long audio into a denser image)",
        );
        return ToolOutcome::Failed(m);
    }
    summary.append(" (too large to inline)");
    ToolOutcome::OkText(summary)
}

/// The audio-diff tool's result once its text is ready: with the encoded
/// difference image inline when one was asked for and fits the cap, with a
/// note that it was omitted when it does not, or the text alone.
pub fn diff_outcome(text: String, png: Option<Vec<u8>>) -> (r: ToolOutcome)
    ensures
        match png {
            None => r matches ToolOutcome::OkText(t) && t@ == text@,
            Some(p) => if p@.len() <= INLINE_PNG_CAP {
                r matches ToolOutcome::OkContent(blocks) && blocks@.len() == 2 && is_image_block(
                    blocks@[0],
                    p@,
                ) && is_text_block(
                    blocks@[1],
                    text@
                        + "\ndiff spectrogram inline: red = louder in B, blue = quieter in B, black = unchanged (saturates at 24 dB)"@,
                )
            } else {
                r matches ToolOutcome::OkText(t) && t@ == text@
                    + "\n(diff spectrogram exceeded the inline size cap; omitted)"@
            },
        },
{
    let mut text = text;
    match png {
        None => ToolOutcome::OkText(text),
        Some(p) => {
            if p.len() <= INLINE_PNG_CAP {
                text.append(
                    "\ndiff spectrogram inline: red = louder in B, blue = quieter in B, black = unchanged (saturates at 24 dB)",
                );
                let mut blocks: Vec<Json> = Vec::new();
                blocks.push(image_block(p.as_slice()));
                blocks.push(text_block(text));
                ToolOutcome::OkContent(blocks)
            } else {
                text.append("\n(diff spectrogram exceeded the inline size cap; omitted)");
                ToolOutcome::OkText(text)
            }
        },
    }
}

/// The lint tool's outcome. No findings reads as clean, any error-level
/// finding as a failure, and otherwise the findings come back as a success.
pub fn lint_outcome(findings: usize, errors: usize, report: String) -> (r: ToolOutcome)
    ensures
        findings == 0 ==> (r matches ToolOutcome::OkText(t) && t@ == "ok: no lint findings"@),
        findings > 0 && errors > 0 ==> (r matches ToolOutcome::Failed(t) && t@ == report@),
        findings > 0 && errors == 0 ==> (r matches ToolOutcome::OkText(t) && t@ == report@),
{
    if findings == 0 {
        ToolOutcome::OkText(String::from_str("ok: no lint findings"))
    } else if errors > 0 {
        ToolOutcome::Failed(report)
    } else {
        ToolOutcome::OkText(report)
    }
}

/// The caller-facing message for a tool that panicked and was contained.
pub open spec fn spec_panic_message(tool: Seq<char>, detail: Seq<char>) -> Seq<char> {
    "internal error: the "@ + tool + " tool panicked and was contained ("@ + detail
        + "). This is a bug in cochlea; the server is still running and can take further requests."@
}

/// Renders a contained panic of `tool`, whose payload read `detail`.
pub fn panic_message(tool: &str, detail: &str) -> (r: String)
    ensures
        r@ == spec_panic_message(tool@, detail@),
{
    let mut m = String::from_str("internal error: the ");
    m.append(tool);
    m.append(" tool panicked and was contained (");
    m.append(detail);
    m.append(
        "). This is a bug in cochlea; the server is still running and can take further requests.",
    );
    m
}

} // verus!
