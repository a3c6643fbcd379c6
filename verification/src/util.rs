use vstd::prelude::*;

verus! {

/// Characters that are illegal in file names and are replaced by '-'.
pub open spec fn is_special(c: char) -> bool {
    ||| c == '?'
    ||| c == '*'
    ||| c == ':'
    ||| c == '"'
    ||| c == '<'
    ||| c == '>'
    ||| c == '\\'
    ||| c == '/'
    ||| c == '|'
}

/// Non-printable control characters, which are stripped.
pub open spec fn is_control(c: char) -> bool {
    (c as u32) < 32
}

/// What one character of a file name becomes: '-' for an illegal
/// character, nothing for a control character, itself otherwise.
pub open spec fn sanitize_char(c: char) -> Seq<char> {
    if is_special(c) {
        seq!['-']
    } else if is_control(c) {
        Seq::<char>::empty()
    } else {
        seq![c]
    }
}

/// Sanitized form of a whole file name.
pub open spec fn sanitize_text(s: Seq<char>) -> Seq<char>
    decreases s.len(),
{
    if s.len() == 0 {
        Seq::<char>::empty()
    } else {
        sanitize_text(s.drop_last()) + sanitize_char(s.last())
    }
}

/// File-name sanitization: replaces characters that are illegal in file
/// names by a dash and strips non-printable control characters.
pub trait ReplaceSpecial: View<V = Seq<char>> + Sized {
    fn replace_special_char(self) -> (r: String)
        ensures
            r@ == sanitize_text(self@),
    ;
}

impl ReplaceSpecial for String {
    fn replace_special_char(self) -> (r: String) {
        let n = self.as_str().unicode_len();
        let mut out = String::new();
        let mut i: usize = 0;
        while i < n
            invariant
                n == self@.len(),
                0 <= i <= n,
                out@ == sanitize_text(self@.subrange(0, i as int)),
            decreases n - i,
        {
            let c = self.as_str().get_char(i);
            if c == '?' || c == '*' || c == ':' || c == '"' || c == '<' || c == '>' || c == '\\'
                || c == '/' || c == '|' {
                out.push('-');
            } else if (c as u32) < 32 {
                // stripped
            } else {
                out.push(c);
            }
            proof {
                let pre = self@.subrange(0, i as int);
                let post = self@.subrange(0, i + 1);
                assert(post.drop_last() =~= pre);
                assert(post.last() == self@[i as int]);
            }
            i = i + 1;
        }
        proof {
            assert(self@.subrange(0, n as int) =~= self@);
        }
        out
    }
}

/// No character of a sanitized name is illegal in a file name or a
/// control character.
pub proof fn lemma_sanitize_clean(s: Seq<char>)
    ensures
        forall|i: int|
            0 <= i < sanitize_text(s).len() ==> !is_special(#[trigger] sanitize_text(s)[i])
                && !is_control(sanitize_text(s)[i]),
    decreases s.len(),
{
    if s.len() > 0 {
        lemma_sanitize_clean(s.drop_last());
        assert(sanitize_text(s) == sanitize_text(s.drop_last()) + sanitize_char(s.last()));
        assert(!is_special('-') && !is_control('-'));
        assert forall|i: int| 0 <= i < sanitize_text(s).len() implies !is_special(
            #[trigger] sanitize_text(s)[i],
        ) && !is_control(sanitize_text(s)[i]) by {
            if i < sanitize_text(s.drop_last()).len() {
                assert(sanitize_text(s)[i] == sanitize_text(s.drop_last())[i]);
            } else {
                assert(sanitize_text(s)[i] == sanitize_char(s.last())[i - sanitize_text(
                    s.drop_last(),
                ).len()]);
            }
        }
    }
}

} // verus!
