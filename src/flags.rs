use vstd::prelude::*;
use vstd::string::*;

verus! {

pub const KF_FLAG_DEFAULT: u32 = 0x0000_0000;
pub const KF_FLAG_FORCE_APP_DATA_REDIRECTION: u32 = 0x0008_0000;
pub const KF_FLAG_RETURN_FILTER_REDIRECTION_TARGET: u32 = 0x0004_0000;
pub const KF_FLAG_FORCE_PACKAGE_REDIRECTION: u32 = 0x0002_0000;
pub const KF_FLAG_NO_PACKAGE_REDIRECTION: u32 = 0x0001_0000;
pub const KF_FLAG_FORCE_APPCONTAINER_REDIRECTION: u32 = 0x0002_0000;
pub const KF_FLAG_CREATE: u32 = 0x0000_8000;
pub const KF_FLAG_DONT_VERIFY: u32 = 0x0000_4000;
pub const KF_FLAG_DONT_UNEXPAND: u32 = 0x0000_2000;
pub const KF_FLAG_NO_ALIAS: u32 = 0x0000_1000;
pub const KF_FLAG_INIT: u32 = 0x0000_0800;
pub const KF_FLAG_DEFAULT_PATH: u32 = 0x0000_0400;
pub const KF_FLAG_NOT_PARENT_RELATIVE: u32 = 0x0000_0200;
pub const KF_FLAG_SIMPLE_IDLIST: u32 = 0x0000_0100;
pub const KF_FLAG_ALIAS_ONLY: u32 = 0x8000_0000;

/// The symbolic names of the known-folder flags, with their values, in table order.
pub open spec fn flag_table() -> Seq<(Seq<char>, u32)> {
    seq![
        ("KF_FLAG_DEFAULT"@, KF_FLAG_DEFAULT),
        ("KF_FLAG_FORCE_APP_DATA_REDIRECTION"@, KF_FLAG_FORCE_APP_DATA_REDIRECTION),
        ("KF_FLAG_RETURN_FILTER_REDIRECTION_TARGET"@, KF_FLAG_RETURN_FILTER_REDIRECTION_TARGET),
        ("KF_FLAG_FORCE_PACKAGE_REDIRECTION"@, KF_FLAG_FORCE_PACKAGE_REDIRECTION),
        ("KF_FLAG_NO_PACKAGE_REDIRECTION"@, KF_FLAG_NO_PACKAGE_REDIRECTION),
        ("KF_FLAG_FORCE_APPCONTAINER_REDIRECTION"@, KF_FLAG_FORCE_APPCONTAINER_REDIRECTION),
        ("KF_FLAG_CREATE"@, KF_FLAG_CREATE),
        ("KF_FLAG_DONT_VERIFY"@, KF_FLAG_DONT_VERIFY),
        ("KF_FLAG_DONT_UNEXPAND"@, KF_FLAG_DONT_UNEXPAND),
        ("KF_FLAG_NO_ALIAS"@, KF_FLAG_NO_ALIAS),
        ("KF_FLAG_INIT"@, KF_FLAG_INIT),
        ("KF_FLAG_DEFAULT_PATH"@, KF_FLAG_DEFAULT_PATH),
        ("KF_FLAG_NOT_PARENT_RELATIVE"@, KF_FLAG_NOT_PARENT_RELATIVE),
        ("KF_FLAG_SIMPLE_IDLIST"@, KF_FLAG_SIMPLE_IDLIST),
        ("KF_FLAG_ALIAS_ONLY"@, KF_FLAG_ALIAS_ONLY),
    ]
}

/// The value of the first entry of `table` named `name`, if any.
pub open spec fn lookup_in(table: Seq<(Seq<char>, u32)>, name: Seq<char>) -> Option<u32>
    decreases table.len(),
{
    if table.len() == 0 {
        None
    } else if table[0].0 == name {
        Some(table[0].1)
    } else {
        lookup_in(table.drop_first(), name)
    }
}

pub open spec fn lookup_flag(name: Seq<char>) -> Option<u32> {
    lookup_in(flag_table(), name)
}

/// The flags that would ask for a directory to be created for every entry.
pub open spec fn is_banned(value: u32) -> bool {
    value == KF_FLAG_CREATE || value == KF_FLAG_INIT
}

pub open spec fn has_prefix(prefix: Seq<char>, s: Seq<char>) -> bool {
    prefix.len() <= s.len() && s.subrange(0, prefix.len() as int) == prefix
}

/// An upper-cased flag name with the `KF_FLAG_` prefix put in front where it lacks it.
pub open spec fn canonical_name(upcased: Seq<char>) -> Seq<char> {
    if has_prefix("KF_FLAG_"@, upcased) {
        upcased
    } else {
        "KF_FLAG_"@ + upcased
    }
}

/// What `str::to_uppercase` makes of a sequence of characters.
pub uninterp spec fn upper_of(s: Seq<char>) -> Seq<char>;

/// Relies on `str::to_uppercase`: the result depends on the characters alone,
/// and an empty string stays empty.
#[verifier::external_body]
fn uppercase(s: &str) -> (r: String)
    ensures
        r@ == upper_of(s@),
        s@.len() == 0 ==> r@.len() == 0,
{
    s.to_uppercase()
}

fn starts_with_chars(s: &str, prefix: &str) -> (r: bool)
    ensures
        r == has_prefix(prefix@, s@),
{
    let n = prefix.unicode_len();
    if n > s.unicode_len() {
        return false;
    }
    let mut i: usize = 0;
    while i < n
        invariant
            n == prefix@.len(),
            n <= s@.len(),
            i <= n,
            forall|j: int| 0 <= j < i ==> s@[j] == prefix@[j],
        decreases n - i,
    {
        if s.get_char(i) != prefix.get_char(i) {
            assert(s@.subrange(0, n as int)[i as int] != prefix@[i as int]);
            return false;
        }
        i = i + 1;
    }
    assert(s@.subrange(0, n as int) =~= prefix@);
    true
}

/// Puts the `KF_FLAG_` prefix in front of an already upper-cased flag name
/// that lacks it.
pub fn prefixed_flag_name(upcased: &str) -> (r: String)
    ensures
        r@ == canonical_name(upcased@),
{
    let prefix = "KF_FLAG_";
    if starts_with_chars(upcased, prefix) {
        String::from_str(upcased)
    } else {
        String::from_str(prefix).concat(upcased)
    }
}

/// Converts an informal spelling of a known-folder flag to its symbolic name:
/// upper case, with the `KF_FLAG_` prefix.
pub fn normalize_flag_name(flag_arg: &str) -> (r: String)
    ensures
        r@ == canonical_name(upper_of(flag_arg@)),
{
    let upcased = uppercase(flag_arg);
    prefixed_flag_name(upcased.as_str())
}

fn named_kf_flags() -> (r: Vec<(&'static str, u32)>)
    ensures
        r@.len() == flag_table().len(),
        forall|i: int| 0 <= i < r@.len() ==> r@[i].0@ == #[trigger] flag_table()[i].0 && r@[i].1
            == flag_table()[i].1,
{
    let r = vec![
        ("KF_FLAG_DEFAULT", KF_FLAG_DEFAULT),
        ("KF_FLAG_FORCE_APP_DATA_REDIRECTION", KF_FLAG_FORCE_APP_DATA_REDIRECTION),
        ("KF_FLAG_RETURN_FILTER_REDIRECTION_TARGET", KF_FLAG_RETURN_FILTER_REDIRECTION_TARGET),
        ("KF_FLAG_FORCE_PACKAGE_REDIRECTION", KF_FLAG_FORCE_PACKAGE_REDIRECTION),
        ("KF_FLAG_NO_PACKAGE_REDIRECTION", KF_FLAG_NO_PACKAGE_REDIRECTION),
        ("KF_FLAG_FORCE_APPCONTAINER_REDIRECTION", KF_FLAG_FORCE_APPCONTAINER_REDIRECTION),
        ("KF_FLAG_CREATE", KF_FLAG_CREATE),
        ("KF_FLAG_DONT_VERIFY", KF_FLAG_DONT_VERIFY),
        ("KF_FLAG_DONT_UNEXPAND", KF_FLAG_DONT_UNEXPAND),
        ("KF_FLAG_NO_ALIAS", KF_FLAG_NO_ALIAS),
        ("KF_FLAG_INIT", KF_FLAG_INIT),
        ("KF_FLAG_DEFAULT_PATH", KF_FLAG_DEFAULT_PATH),
        ("KF_FLAG_NOT_PARENT_RELATIVE", KF_FLAG_NOT_PARENT_RELATIVE),
        ("KF_FLAG_SIMPLE_IDLIST", KF_FLAG_SIMPLE_IDLIST),
        ("KF_FLAG_ALIAS_ONLY", KF_FLAG_ALIAS_ONLY),
    ];
    r
}

/// Looks a symbolic flag name up in the flag table.
pub fn flag_value(name: &String) -> (r: Option<u32>)
    ensures
        r == lookup_flag(name@),
{
    let table = named_kf_flags();
    let mut i: usize = 0;
    assert(flag_table().subrange(0, flag_table().len() as int) =~= flag_table());
    while i < table.len()
        invariant
            table@.len() == flag_table().len(),
            forall|k: int| 0 <= k < table@.len() ==> table@[k].0@ == #[trigger] flag_table()[k].0
                && table@[k].1 == flag_table()[k].1,
            i <= table@.len(),
            lookup_flag(name@) == lookup_in(flag_table().subrange(i as int, flag_table().len() as int), name@),
        decreases table@.len() - i,
    {
        let ghost rest = flag_table().subrange(i as int, flag_table().len() as int);
        assert(rest.drop_first() =~= flag_table().subrange(i + 1, flag_table().len() as int));
        assert(rest[0] == flag_table()[i as int]);
        let entry = String::from_str(table[i].0);
        if name.eq(&entry) {
            return Some(table[i].1);
        }
        i = i + 1;
    }
    None
}

/// Why a list of flag tokens was refused.
#[derive(Debug)]
pub enum FlagParseError {
    /// The token starts with `-`: no options are recognized.
    UnrecognizedOption(String),
    /// The token, normalized, names no known-folder flag.
    UnrecognizedFlag(String),
    /// The token names a flag that would create directories for every entry.
    BannedFlag(String),
}

/// A [`FlagParseError`] with its text seen as characters.
pub enum FlagErrorView {
    UnrecognizedOption(Seq<char>),
    UnrecognizedFlag(Seq<char>),
    BannedFlag(Seq<char>),
}

impl View for FlagParseError {
    type V = FlagErrorView;

    open spec fn view(&self) -> FlagErrorView {
        match self {
            FlagParseError::UnrecognizedOption(s) => FlagErrorView::UnrecognizedOption(s@),
            FlagParseError::UnrecognizedFlag(s) => FlagErrorView::UnrecognizedFlag(s@),
            FlagParseError::BannedFlag(s) => FlagErrorView::BannedFlag(s@),
        }
    }
}

/// What one token contributes to the mask, or why it is refused.
pub open spec fn token_step(token: Seq<char>) -> Result<u32, FlagErrorView> {
    if token.len() > 0 && token[0] == '-' {
        Err(FlagErrorView::UnrecognizedOption(token))
    } else {
        let name = canonical_name(upper_of(token));
        match lookup_flag(name) {
            None => Err(FlagErrorView::UnrecognizedFlag(name)),
            Some(value) => if is_banned(value) {
                Err(FlagErrorView::BannedFlag(name))
            } else {
                Ok(value)
            },
        }
    }
}

/// The mask for a list of tokens, taken in order: the first refused token decides
/// the error, else the flags of all tokens are combined with `|`.
pub open spec fn translate(tokens: Seq<Seq<char>>) -> Result<u32, FlagErrorView>
    decreases tokens.len(),
{
    if tokens.len() == 0 {
        Ok(KF_FLAG_DEFAULT)
    } else {
        match translate(tokens.drop_last()) {
            Err(e) => Err(e),
            Ok(mask) => match token_step(tokens.last()) {
                Err(e) => Err(e),
                Ok(value) => Ok(mask | value),
            },
        }
    }
}

pub open spec fn strings_view(v: Seq<String>) -> Seq<Seq<char>> {
    v.map_values(|s: String| s@)
}

/// The mask never holds a flag that asks for creation.
pub open spec fn mask_is_safe(mask: u32) -> bool {
    mask & KF_FLAG_CREATE == 0 && mask & KF_FLAG_INIT == 0
}

proof fn lemma_lookup_values(name: Seq<char>)
    ensures
        lookup_flag(name) matches Some(v) ==> (is_banned(v) || v & 0x8800 == 0),
{
    reveal_with_fuel(lookup_in, 16);
    if let Some(v) = lookup_flag(name) {
        assert(v == 0 || v == 0x0008_0000 || v == 0x0004_0000 || v == 0x0002_0000 || v
            == 0x0001_0000 || v == 0x8000 || v == 0x4000 || v == 0x2000 || v == 0x1000 || v
            == 0x800 || v == 0x400 || v == 0x200 || v == 0x100 || v == 0x8000_0000);
        assert((v == 0 || v == 0x0008_0000 || v == 0x0004_0000 || v == 0x0002_0000 || v
            == 0x0001_0000 || v == 0x8000 || v == 0x4000 || v == 0x2000 || v == 0x1000 || v
            == 0x800 || v == 0x400 || v == 0x200 || v == 0x100 || v == 0x8000_0000) ==> (v
            == 0x8000 || v == 0x800 || v & 0x8800 == 0)) by (bit_vector);
    }
}

proof fn lemma_safe_or(mask: u32, value: u32)
    requires
        mask & 0x8800 == 0,
        value & 0x8800 == 0,
    ensures
        (mask | value) & 0x8800 == 0,
        mask_is_safe(mask | value),
{
    assert((mask & 0x8800 == 0 && value & 0x8800 == 0) ==> ((mask | value) & 0x8800 == 0
        && (mask | value) & 0x8000 == 0 && (mask | value) & 0x800 == 0)) by (bit_vector);
}

/// Once a prefix of the tokens is refused, the whole list is refused the same way.
pub proof fn lemma_refused_prefix(tokens: Seq<Seq<char>>, i: int)
    requires
        0 <= i <= tokens.len(),
        translate(tokens.take(i)) is Err,
    ensures
        translate(tokens) == translate(tokens.take(i)),
    decreases tokens.len() - i,
{
    if i < tokens.len() {
        assert(tokens.drop_last().take(i) =~= tokens.take(i));
        lemma_refused_prefix(tokens.drop_last(), i);
    } else {
        assert(tokens.take(i) =~= tokens);
    }
}

/// Parses flag tokens (the command-line arguments after the program name) as a
/// known-folder flag mask.
///
/// The flags only change how a folder's path is looked up; they never pick which
/// folders are listed. Flags that would create a directory for every registered
/// folder that lacks one are refused.
pub fn read_args_as_kf_flags(args: &Vec<String>) -> (r: Result<u32, FlagParseError>)
    ensures
        match r {
            Ok(mask) => translate(strings_view(args@)) == Ok::<u32, FlagErrorView>(mask)
                && mask_is_safe(mask),
            Err(e) => translate(strings_view(args@)) == Err::<u32, FlagErrorView>(e@),
        },
{
    let ghost tokens = strings_view(args@);
    let mut flags: u32 = KF_FLAG_DEFAULT;
    let mut i: usize = 0;
    assert(tokens.take(0) =~= Seq::<Seq<char>>::empty());
    assert(0u32 & 0x8800 == 0) by (bit_vector);
    while i < args.len()
        invariant
            tokens == strings_view(args@),
            i <= args@.len(),
            translate(tokens.take(i as int)) == Ok::<u32, FlagErrorView>(flags),
            flags & 0x8800 == 0,
        decreases args@.len() - i,
    {
        let flag_arg = &args[i];
        let ghost t = flag_arg@;
        assert(tokens.take(i + 1).drop_last() =~= tokens.take(i as int));
        assert(tokens.take(i + 1).last() == t);
        if flag_arg.as_str().unicode_len() > 0 && flag_arg.as_str().get_char(0) == '-' {
            let e = FlagParseError::UnrecognizedOption(flag_arg.clone());
            proof { lemma_refused_prefix(tokens, i + 1); }
            return Err(e);
        }
        let flag_name = normalize_flag_name(flag_arg.as_str());
        proof { lemma_lookup_values(flag_name@); }
        match flag_value(&flag_name) {
            None => {
                proof { lemma_refused_prefix(tokens, i + 1); }
                return Err(FlagParseError::UnrecognizedFlag(flag_name));
            },
            Some(flag) => {
                if flag == KF_FLAG_CREATE || flag == KF_FLAG_INIT {
                    proof { lemma_refused_prefix(tokens, i + 1); }
                    return Err(FlagParseError::BannedFlag(flag_name));
                }
                proof { lemma_safe_or(flags, flag); }
                flags = flags | flag;
            },
        }
        i = i + 1;
    }
    assert(tokens.take(i as int) =~= tokens);
    proof { lemma_safe_or(flags, 0); assert(flags | 0 == flags) by (bit_vector); }
    Ok(flags)
}

pub open spec fn all_accepted(tokens: Seq<Seq<char>>) -> bool {
    forall|i: int| 0 <= i < tokens.len() ==> (#[trigger] token_step(tokens[i])) is Ok
}

/// Every flag that a token of `a` stands for is stood for by some token of `b`.
pub open spec fn flags_covered(a: Seq<Seq<char>>, b: Seq<Seq<char>>) -> bool {
    forall|i: int|
        0 <= i < a.len() ==> exists|j: int|
            0 <= j < b.len() && token_step(b[j]) == #[trigger] token_step(a[i])
}

proof fn lemma_accepted_mask(tokens: Seq<Seq<char>>)
    requires
        all_accepted(tokens),
    ensures
        translate(tokens) is Ok,
        forall|i: int|
            0 <= i < tokens.len() ==> (translate(tokens)->Ok_0 | #[trigger] token_step(
                tokens[i],
            )->Ok_0) == translate(tokens)->Ok_0,
    decreases tokens.len(),
{
    if tokens.len() > 0 {
        let front = tokens.drop_last();
        assert forall|i: int| 0 <= i < front.len() implies (#[trigger] token_step(front[i])) is Ok by {
            assert(front[i] == tokens[i]);
        }
        lemma_accepted_mask(front);
        let m = translate(front)->Ok_0;
        let l = token_step(tokens.last())->Ok_0;
        assert forall|i: int| 0 <= i < tokens.len() implies (translate(tokens)->Ok_0
            | #[trigger] token_step(tokens[i])->Ok_0) == translate(tokens)->Ok_0 by {
            let v = token_step(tokens[i])->Ok_0;
            if i < front.len() {
                assert(front[i] == tokens[i]);
                assert((m | v) == m ==> ((m | l) | v) == (m | l)) by (bit_vector);
            } else {
                assert(((m | l) | l) == (m | l)) by (bit_vector);
            }
        }
    }
}

proof fn lemma_absorbs(x: u32, tokens: Seq<Seq<char>>)
    requires
        all_accepted(tokens),
        forall|i: int| 0 <= i < tokens.len() ==> (x | #[trigger] token_step(tokens[i])->Ok_0) == x,
    ensures
        translate(tokens) is Ok,
        (x | translate(tokens)->Ok_0) == x,
    decreases tokens.len(),
{
    if tokens.len() == 0 {
        assert((x | 0) == x) by (bit_vector);
    } else {
        let front = tokens.drop_last();
        assert forall|i: int| 0 <= i < front.len() implies (#[trigger] token_step(front[i])) is Ok
            && (x | token_step(front[i])->Ok_0) == x by {
            assert(front[i] == tokens[i]);
        }
        lemma_absorbs(x, front);
        let m = translate(front)->Ok_0;
        let l = token_step(tokens.last())->Ok_0;
        assert(((x | m) == x && (x | l) == x) ==> (x | (m | l)) == x) by (bit_vector);
    }
}

/// Translation depends only on which flags the tokens stand for: two lists of
/// accepted tokens that stand for the same flags, in any order and with any
/// repetition, give the same mask.
pub proof fn lemma_translate_order_insensitive(a: Seq<Seq<char>>, b: Seq<Seq<char>>)
    requires
        all_accepted(a),
        all_accepted(b),
        flags_covered(a, b),
        flags_covered(b, a),
    ensures
        translate(a) is Ok,
        translate(a) == translate(b),
{
    lemma_accepted_mask(a);
    lemma_accepted_mask(b);
    let x = translate(a)->Ok_0;
    let y = translate(b)->Ok_0;
    assert forall|i: int| 0 <= i < b.len() implies (x | #[trigger] token_step(b[i])->Ok_0) == x by {
        let j = choose|j: int| 0 <= j < a.len() && token_step(a[j]) == token_step(b[i]);
        assert((x | token_step(a[j])->Ok_0) == x);
    }
    assert forall|i: int| 0 <= i < a.len() implies (y | #[trigger] token_step(a[i])->Ok_0) == y by {
        let j = choose|j: int| 0 <= j < b.len() && token_step(b[j]) == token_step(a[i]);
        assert((y | token_step(b[j])->Ok_0) == y);
    }
    lemma_absorbs(x, b);
    lemma_absorbs(y, a);
    assert(((x | y) == x && (y | x) == y) ==> x == y) by (bit_vector);
}

proof fn lemma_refused_at(before: Seq<Seq<char>>, token: Seq<char>, after: Seq<Seq<char>>)
    requires
        all_accepted(before),
        token_step(token) is Err,
    ensures
        translate(before + seq![token] + after) == token_step(token),
{
    let all = before + seq![token] + after;
    lemma_accepted_mask(before);
    let n = before.len() as int + 1;
    assert(all.take(n).drop_last() =~= before);
    assert(all.take(n).last() == token);
    lemma_refused_prefix(all, n);
}

/// A token that spells a creating flag, in any case and with or without the
/// `KF_FLAG_` prefix, is refused as banned wherever it stands after accepted tokens.
pub proof fn lemma_banned_spellings_refused(
    before: Seq<Seq<char>>,
    token: Seq<char>,
    after: Seq<Seq<char>>,
)
    requires
        all_accepted(before),
        token.len() == 0 || token[0] != '-',
        upper_of(token) == "CREATE"@ || upper_of(token) == "KF_FLAG_CREATE"@ || upper_of(token)
            == "INIT"@ || upper_of(token) == "KF_FLAG_INIT"@,
    ensures
        translate(before + seq![token] + after) == Err::<u32, FlagErrorView>(
            FlagErrorView::BannedFlag(canonical_name(upper_of(token))),
        ),
        canonical_name(upper_of(token)) == "KF_FLAG_CREATE"@ || canonical_name(upper_of(token))
            == "KF_FLAG_INIT"@,
{
    reveal_strlit("KF_FLAG_");
    reveal_strlit("CREATE");
    reveal_strlit("INIT");
    reveal_strlit("KF_FLAG_CREATE");
    reveal_strlit("KF_FLAG_INIT");
    reveal_strlit("KF_FLAG_DEFAULT");
    reveal_strlit("KF_FLAG_FORCE_APP_DATA_REDIRECTION");
    reveal_strlit("KF_FLAG_RETURN_FILTER_REDIRECTION_TARGET");
    reveal_strlit("KF_FLAG_FORCE_PACKAGE_REDIRECTION");
    reveal_strlit("KF_FLAG_NO_PACKAGE_REDIRECTION");
    reveal_strlit("KF_FLAG_FORCE_APPCONTAINER_REDIRECTION");
    reveal_strlit("KF_FLAG_DONT_VERIFY");
    reveal_strlit("KF_FLAG_DONT_UNEXPAND");
    reveal_strlit("KF_FLAG_NO_ALIAS");
    reveal_with_fuel(lookup_in, 16);
    let u = upper_of(token);
    if u == "CREATE"@ || u == "INIT"@ {
        assert(!has_prefix("KF_FLAG_"@, u));
    } else {
        assert(u.subrange(0, 8) =~= "KF_FLAG_"@);
    }
    assert("KF_FLAG_"@ + "CREATE"@ =~= "KF_FLAG_CREATE"@);
    assert("KF_FLAG_"@ + "INIT"@ =~= "KF_FLAG_INIT"@);
    assert(token_step(token) is Err);
    lemma_refused_at(before, token, after);
}

/// A token that starts with `-` is refused as an option, before any name lookup,
/// wherever it stands after accepted tokens.
pub proof fn lemma_option_marker_refused(
    before: Seq<Seq<char>>,
    token: Seq<char>,
    after: Seq<Seq<char>>,
)
    requires
        all_accepted(before),
        token.len() > 0,
        token[0] == '-',
    ensures
        translate(before + seq![token] + after) == Err::<u32, FlagErrorView>(
            FlagErrorView::UnrecognizedOption(token),
        ),
{
    lemma_refused_at(before, token, after);
}

} // verus!
