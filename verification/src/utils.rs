//! Path and permission helpers. The file system itself is only probed by
//! the caller; these functions hold the decisions: which permission bits
//! grant access, and what the deterministic destination path of an item is.

use vstd::prelude::*;

use crate::ext::{extension_of_mime, is_known_mime, AudioType};
use crate::text::find_spec;
use crate::parser::{split_char, split_char_exec};

verus! {

/// The owner-read bit of a Unix permission mode.
pub open spec fn mode_readable(mode: u32) -> bool {
    (mode >> 8) & 1 == 1
}

/// The owner-write bit of a Unix permission mode.
pub open spec fn mode_writable(mode: u32) -> bool {
    (mode >> 7) & 1 == 1
}

/// Whether a path's permission mode grants the owner read access.
pub fn is_path_readable(mode: u32) -> (r: bool)
    ensures
        r == mode_readable(mode),
{
    ((mode >> 8) & 0x1) == 1
}

/// Whether a path's permission mode grants the owner write access.
pub fn is_path_writable(mode: u32) -> (r: bool)
    ensures
        r == mode_writable(mode),
{
    ((mode >> 7) & 0x1) == 1
}

/// Whether a probed path is an existing directory, from the two facts the
/// caller probed.
pub fn does_dir_exist(file_exists: bool, file_is_dir: bool) -> (r: bool)
    ensures
        r == (file_exists && file_is_dir),
{
    if file_exists {
        file_is_dir
    } else {
        false
    }
}

/// A title with every path separator replaced, so that it names one file.
pub open spec fn sanitize_title(t: Seq<char>) -> Seq<char> {
    t.map_values(|c: char| if c == '/' { '-' } else { c })
}

/// The deterministic destination path of an enclosure:
/// `<dir>/<sanitized-title>.<extension-of-mime>`.
pub open spec fn dest_path_spec(dir: Seq<char>, mime_type: Seq<char>, title: Seq<char>) -> Seq<char> {
    dir + "/"@ + sanitize_title(title) + "."@ + extension_of_mime(mime_type)
}

/// The split segments re-joined with `'-'` between them.
pub open spec fn join_dashed(parts: Seq<Seq<char>>) -> Seq<char>
    decreases parts.len(),
{
    if parts.len() == 0 {
        Seq::empty()
    } else if parts.len() == 1 {
        parts[0]
    } else {
        parts[0] + seq!['-'] + join_dashed(parts.drop_first())
    }
}

proof fn lemma_split_nonempty(s: Seq<char>, c: char)
    ensures
        split_char(s, c).len() > 0,
    decreases s.len(),
{
    let f = find_spec(s, c);
    crate::text::lemma_find_props(s, c);
    if f < 0 || f >= s.len() {
    } else {
        lemma_split_nonempty(s.subrange(f + 1, s.len() as int), c);
    }
}

proof fn lemma_join_cons(head: Seq<char>, rest: Seq<Seq<char>>)
    requires
        rest.len() > 0,
    ensures
        join_dashed(seq![head] + rest) == head + seq!['-'] + join_dashed(rest),
{
    let whole = seq![head] + rest;
    assert(whole.len() >= 2);
    assert(whole[0] == head);
    assert(whole.drop_first() =~= rest);
}

proof fn lemma_sanitize_split(t: Seq<char>)
    ensures
        sanitize_title(t) == join_dashed(split_char(t, '/')),
    decreases t.len(),
{
    let f = find_spec(t, '/');
    crate::text::lemma_find_props(t, '/');
    if f < 0 || f >= t.len() {
        assert(split_char(t, '/') == seq![t]);
        assert(sanitize_title(t) =~= t) by {
            assert(forall|k: int| 0 <= k < t.len() ==> t[k] != '/');
        }
    } else {
        let head = t.subrange(0, f);
        let rest = t.subrange(f + 1, t.len() as int);
        lemma_sanitize_split(rest);
        lemma_split_nonempty(rest, '/');
        lemma_join_cons(head, split_char(rest, '/'));
        assert(sanitize_title(head) =~= head) by {
            assert(forall|k: int| 0 <= k < f ==> t[k] != '/');
        }
        assert(sanitize_title(t) =~= sanitize_title(head) + seq!['-'] + sanitize_title(rest));
    }
}

proof fn lemma_join_snoc(parts: Seq<Seq<char>>, k: int)
    requires
        0 <= k < parts.len(),
    ensures
        join_dashed(parts.subrange(0, k + 1)) == (if k == 0 {
            parts[0]
        } else {
            join_dashed(parts.subrange(0, k)) + seq!['-'] + parts[k]
        }),
    decreases k,
{
    if k == 0 {
        let p = parts.subrange(0, 1);
        assert(p.len() == 1 && p[0] == parts[0]);
    } else {
        lemma_join_snoc(parts.drop_first(), k - 1);
        let p1 = parts.subrange(0, k + 1);
        let p0 = parts.subrange(0, k);
        assert(p1.len() >= 2);
        assert(p1[0] == parts[0]);
        assert(p1.drop_first() =~= parts.drop_first().subrange(0, k));
        if k == 1 {
            assert(p0.len() == 1 && p0[0] == parts[0]);
            assert(parts.drop_first().subrange(0, 1)[0] == parts[1]);
            assert(parts.drop_first().subrange(0, 1).len() == 1);
            assert(join_dashed(p1) =~= join_dashed(p0) + seq!['-'] + parts[k]);
        } else {
            assert(p0.len() >= 2);
            assert(p0[0] == parts[0]);
            assert(p0.drop_first() =~= parts.drop_first().subrange(0, k - 1));
            assert(parts.drop_first()[k - 1] == parts[k]);
            assert(join_dashed(p1) =~= join_dashed(p0) + seq!['-'] + parts[k]);
        }
    }
}

/// Build the destination path of an enclosure under `file`: the title with
/// path separators sanitized, the extension derived from the MIME type.
pub fn create_file_path(file: &str, mime_type: &str, title: &str) -> (r: String)
    requires
        is_known_mime(mime_type@),
    ensures
        r@ == dest_path_spec(file@, mime_type@, title@),
{
    let mut out: String = file.to_owned();
    out.append("/");
    let segments = split_char_exec(title, '/');
    let ghost sparts = split_char(title@, '/');
    let n = segments.len();
    proof {
        lemma_split_nonempty(title@, '/');
    }
    let mut k: usize = 0;
    while k < n
        invariant
            0 < n == segments@.len(),
            segments@.map_values(|p: &str| p@) == split_char(title@, '/'),
            sparts == split_char(title@, '/'),
            0 <= k <= n,
            k == 0 ==> out@ == file@ + "/"@,
            k > 0 ==> out@ == file@ + "/"@ + join_dashed(sparts.subrange(0, k as int)) + (
            if k < n {
                seq!['-']
            } else {
                Seq::<char>::empty()
            }),
        decreases n - k,
    {
        let ghost pre = out@;
        out.append(segments[k]);
        if k + 1 < n {
            out.append("-");
        }
        proof {
            reveal_strlit("-");
            assert("-"@ =~= seq!['-']);
            lemma_join_snoc(sparts, k as int);
            assert(segments@[k as int]@ == sparts[k as int]);
            assert(out@ =~= file@ + "/"@ + join_dashed(sparts.subrange(0, k + 1)) + (
            if k + 1 < n {
                seq!['-']
            } else {
                Seq::<char>::empty()
            }));
        }
        k = k + 1;
    }
    out.append(".");
    let ext = AudioType::get_extension_from_mime(mime_type);
    out.append(ext);
    proof {
        assert(sparts.subrange(0, sparts.len() as int) =~= sparts);
        lemma_sanitize_split(title@);
        assert(out@ =~= dest_path_spec(file@, mime_type@, title@));
    }
    out
}

} // verus!
