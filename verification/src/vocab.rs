//! The fixed tag-name vocabulary and the template-invocation name.

use vstd::prelude::*;

verus! {

/// A recognized element tag name: exactly `div`, or the letter `h`
/// followed by exactly one digit `1`–`9`.
pub open spec fn is_tag_name_spec(s: Seq<char>) -> bool {
    (s.len() == 3 && s[0] == 'd' && s[1] == 'i' && s[2] == 'v') || (s.len() == 2 && s[0] == 'h'
        && ('1' as u32) <= (s[1] as u32) && (s[1] as u32) <= ('9' as u32))
}

/// The name of the template-building invocation whose body is markup.
pub open spec fn is_template_name_spec(s: Seq<char>) -> bool {
    s.len() == 4 && s[0] == 'v' && s[1] == 'i' && s[2] == 'e' && s[3] == 'w'
}

/// Tests an identifier's text against the tag-name vocabulary.
pub fn is_tag_name(s: &String) -> (r: bool)
    ensures
        r == is_tag_name_spec(s@),
{
    let n = s.as_str().unicode_len();
    if n == 3 {
        s.as_str().get_char(0) == 'd' && s.as_str().get_char(1) == 'i' && s.as_str().get_char(2)
            == 'v'
    } else if n == 2 {
        if s.as_str().get_char(0) == 'h' {
            let d = s.as_str().get_char(1) as u32;
            ('1' as u32) <= d && d <= ('9' as u32)
        } else {
            false
        }
    } else {
        false
    }
}

/// Tests an identifier's text against the template-invocation name.
pub fn is_template_name(s: &String) -> (r: bool)
    ensures
        r == is_template_name_spec(s@),
{
    let n = s.as_str().unicode_len();
    n == 4 && s.as_str().get_char(0) == 'v' && s.as_str().get_char(1) == 'i' && s.as_str().get_char(
        2,
    ) == 'e' && s.as_str().get_char(3) == 'w'
}

} // verus!
