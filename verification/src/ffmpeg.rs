//! Locating ffmpeg: reading the answer of `where`, and picking the two
//! executables out of the downloaded build's archive.

use vstd::prelude::*;
use crate::text::{chars_eq, chars_of, lines, lines_of, char_views, string_of, trim, trim_chars};

verus! {

/// The first line of `where` output that is not blank, trimmed.
pub open spec fn first_nonblank_line(ls: Seq<Seq<char>>) -> Option<Seq<char>>
    decreases ls.len(),
{
    if ls.len() == 0 {
        None
    } else if trim(ls[0]).len() > 0 {
        Some(trim(ls[0]))
    } else {
        first_nonblank_line(ls.drop_first())
    }
}

/// The path that `where <name>` printed first.
pub fn first_path_line(out: &str) -> (r: Option<String>)
    ensures
        match r {
            Some(p) => first_nonblank_line(lines(out@)) == Some(p@),
            None => first_nonblank_line(lines(out@)) is None,
        },
{
    let cs = chars_of(out);
    let ls = lines_of(&cs);
    let ghost lv = char_views(ls@);
    let mut i: usize = 0;
    assert(lv.skip(0) =~= lv);
    while i < ls.len()
        invariant
            i <= ls.len(),
            lv == char_views(ls@),
            lv == lines(out@),
            first_nonblank_line(lv) == first_nonblank_line(lv.skip(i as int)),
        decreases ls.len() - i,
    {
        let t = trim_chars(&ls[i]);
        let ghost sk = lv.skip(i as int);
        assert(sk[0] == ls@[i as int]@);
        assert(sk.drop_first() =~= lv.skip(i + 1));
        if t.len() > 0 {
            return Some(string_of(&t));
        }
        i = i + 1;
    }
    assert(lv.skip(i as int) =~= Seq::<Seq<char>>::empty());
    None
}

/// Which executable an archive entry provides.
#[derive(Debug, Clone, Copy, PartialEq, Eq, Structural)]
pub enum Executable {
    Ffmpeg,
    Ffprobe,
}

/// `name` with every `\` turned into `/`.
pub open spec fn slashed(name: Seq<char>) -> Seq<char> {
    name.map_values(|c: char| if c == '\\' { '/' } else { c })
}

/// Whether `s` holds `t` at position `i`.
pub open spec fn occurs_at(s: Seq<char>, t: Seq<char>, i: int) -> bool {
    0 <= i && i + t.len() <= s.len() && s.subrange(i, i + t.len()) == t
}

/// The last `/`-separated component of `s`.
pub open spec fn last_component(s: Seq<char>) -> Seq<char>
    decreases s.len(),
{
    if s.len() == 0 {
        s
    } else if s.last() == '/' {
        Seq::empty()
    } else {
        last_component(s.drop_last()).push(s.last())
    }
}

/// Whether a (slashed) entry name lies under a `bin` directory: it holds
/// `/bin/`, or it starts with `bin/` at the archive root.
pub open spec fn in_bin_dir(n: Seq<char>) -> bool {
    (exists|i: int| occurs_at(n, "/bin/"@, i)) || occurs_at(n, "bin/"@, 0)
}

/// The executable an entry of the build archive is extracted as: an entry
/// named `ffmpeg.exe` or `ffprobe.exe` inside a `bin` directory, nested or
/// at the archive root (after turning backslashes into slashes).
pub open spec fn spec_executable_target(name: Seq<char>) -> Option<Executable> {
    let n = slashed(name);
    let in_bin = in_bin_dir(n);
    if last_component(n) == "ffmpeg.exe"@ && in_bin {
        Some(Executable::Ffmpeg)
    } else if last_component(n) == "ffprobe.exe"@ && in_bin {
        Some(Executable::Ffprobe)
    } else {
        None
    }
}

/// Decides which executable, if any, an archive entry is.
pub fn executable_target(name: &str) -> (r: Option<Executable>)
    ensures
        r == spec_executable_target(name@),
{
    let v = chars_of(name);
    let mut n: Vec<char> = Vec::new();
    let mut i: usize = 0;
    while i < v.len()
        invariant
            i <= v.len(),
            v@ == name@,
            n@ == v@.take(i as int).map_values(|c: char| if c == '\\' { '/' } else { c }),
        decreases v.len() - i,
    {
        let c = v[i];
        n.push(if c == '\\' { '/' } else { c });
        i = i + 1;
        assert(n@ =~= v@.take(i as int).map_values(|c: char| if c == '\\' { '/' } else { c }));
    }
    assert(v@.take(v.len() as int) =~= v@);
    assert(n@ == slashed(name@));
    // The last component.
    let mut j: usize = n.len();
    assert(n@.take(j as int) =~= n@);
    assert(n@.skip(j as int) =~= Seq::<char>::empty());
    while j > 0 && n[j - 1] != '/'
        invariant
            j <= n.len(),
            last_component(n@) == last_component(n@.take(j as int)) + n@.skip(j as int),
        decreases j,
    {
        let ghost t = n@.take(j as int);
        assert(t.drop_last() =~= n@.take(j - 1));
        assert(n@.skip(j - 1) =~= seq![n@[j - 1]] + n@.skip(j as int));
        j = j - 1;
        assert(last_component(n@) =~= last_component(n@.take(j as int)) + n@.skip(j as int));
    }
    assert(last_component(n@.take(j as int)) =~= Seq::<char>::empty());
    let mut last: Vec<char> = Vec::new();
    let mut k = j;
    while k < n.len()
        invariant
            j <= k <= n.len(),
            last@ == n@.subrange(j as int, k as int),
        decreases n.len() - k,
    {
        last.push(n[k]);
        k = k + 1;
        assert(last@ =~= n@.subrange(j as int, k as int));
    }
    assert(last@ =~= last_component(n@));
    // Whether "/bin/" occurs.
    let pat = chars_of("/bin/");
    proof {
        reveal_strlit("/bin/");
    }
    let mut in_bin = false;
    let mut p: usize = 0;
    while n.len() >= 5 && p <= n.len() - 5 && !in_bin
        invariant
            pat@ == "/bin/"@,
            pat@.len() == 5,
            p <= n.len(),
            in_bin ==> exists|q: int| occurs_at(n@, "/bin/"@, q),
            !in_bin ==> forall|q: int| 0 <= q < p ==> !occurs_at(n@, "/bin/"@, q),
        decreases n.len() + 1 - p,
    {
        let mut same = true;
        let mut m: usize = 0;
        while m < 5
            invariant
                m <= 5,
                p + 5 <= n.len(),
                pat@.len() == 5,
                same == (forall|x: int| 0 <= x < m ==> #[trigger] n@[p + x] == pat@[x]),
            decreases 5 - m,
        {
            if n[p + m] != pat[m] {
                same = false;
            }
            m = m + 1;
        }
        if same {
            assert(n@.subrange(p as int, p + 5) =~= pat@) by {
                assert forall|x: int| 0 <= x < 5 implies n@.subrange(p as int, p + 5)[x] == pat@[x] by {
                    assert(n@[p + x] == pat@[x]);
                }
            }
        } else {
            proof {
                let x = choose|x: int| 0 <= x < 5 && #[trigger] n@[p + x] != pat@[x];
                assert(n@.subrange(p as int, p + 5)[x] != pat@[x]);
            }
        }
        if same {
            assert(occurs_at(n@, "/bin/"@, p as int));
            in_bin = true;
        }
        p = p + 1;
    }
    proof {
        if !in_bin {
            assert forall|q: int| !occurs_at(n@, "/bin/"@, q) by {
                if q >= p {
                    assert(!(q + 5 <= n@.len()));
                }
            }
        }
    }
    // Or whether the name starts with "bin/".
    let at_root = n.len() >= 4 && n[0] == 'b' && n[1] == 'i' && n[2] == 'n' && n[3] == '/';
    proof {
        reveal_strlit("bin/");
        if at_root {
            assert(n@.subrange(0, 4) =~= "bin/"@);
        } else if occurs_at(n@, "bin/"@, 0) {
            assert(n@.subrange(0, 4)[0] == 'b');
            assert(n@.subrange(0, 4)[1] == 'i');
            assert(n@.subrange(0, 4)[2] == 'n');
            assert(n@.subrange(0, 4)[3] == '/');
        }
    }
    let in_bin = in_bin || at_root;
    assert(in_bin == in_bin_dir(n@));
    if chars_eq(&last, &chars_of("ffmpeg.exe")) && in_bin {
        Some(Executable::Ffmpeg)
    } else if chars_eq(&last, &chars_of("ffprobe.exe")) && in_bin {
        Some(Executable::Ffprobe)
    } else {
        None
    }
}

} // verus!
