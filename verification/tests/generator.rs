use guile_rs::driver::{expand_defs, expand_impl};
use guile_rs::errors::Error;

fn expand_defs_text(input: &str) -> Result<String, Error> {
    expand_defs(input.as_bytes()).map(|v| String::from_utf8(v).unwrap())
}

fn expand_impl_text(input: &str) -> Result<String, Error> {
    expand_impl(input.as_bytes()).map(|v| String::from_utf8(v).unwrap())
}

#[test]
fn receiver_call_with_wrap() {
    let out = expand_defs_text("fn car() => gu_scm_car(@s) -> @r Scm<UnspecifiedSpec>").unwrap();
    assert_eq!(
        out,
        "fn car ( & self ) -> Scm < UnspecifiedSpec > \
         { unsafe { Scm :: _from_raw ( gu_scm_car ( self . data ) ) } }"
    );
}

#[test]
fn suppressed_receiver_with_generics() {
    let out = expand_defs_text(
        "fn cons(@_, &Scm<A>|A:TypeSpec, &Scm<B>|B:TypeSpec) => gu_scm_cons(@*#) -> @r Scm<PairSpec>",
    )
    .unwrap();
    assert_eq!(
        out,
        "fn cons < A : TypeSpec , B : TypeSpec > ( a0 : & Scm < A > , a1 : & Scm < B > ) \
         -> Scm < PairSpec > \
         { unsafe { Scm :: _from_raw ( gu_scm_cons ( a0 . data , a1 . data ) ) } }"
    );
}

#[test]
fn mutable_receiver_unit_return() {
    let out = expand_defs_text(
        "fn set_x(&mut self, Scm<KS>|KS:TypeSpec, Scm<VS>|VS:TypeSpec) => gu_hash_set_x(@s, @*#)",
    )
    .unwrap();
    assert_eq!(
        out,
        "fn set_x < KS : TypeSpec , VS : TypeSpec > \
         ( & mut self , a1 : Scm < KS > , a2 : Scm < VS > ) -> ( ) \
         { unsafe { gu_hash_set_x ( self . data , a1 . data , a2 . data ) } ; }"
    );
}

#[test]
fn no_rest_passes_only_immediates() {
    // the only declared parameter is never referenced, so it is not passed
    let out = expand_defs_text("fn touch(Scm<IntSpec>) => gu_touch(@s)").unwrap();
    assert_eq!(
        out,
        "fn touch ( & self , a0 : Scm < IntSpec > ) -> ( ) \
         { unsafe { gu_touch ( self . data ) } ; }"
    );
}

#[test]
fn positional_marker_consumes_parameter() {
    // a0 is consumed by the positional marker, so the rest expands to a1 only
    let out =
        expand_defs_text("fn mix(Scm<IntSpec>, Scm<IntSpec>) => gu_mix(@0#, @*#)").unwrap();
    assert_eq!(
        out,
        "fn mix ( & self , a0 : Scm < IntSpec > , a1 : Scm < IntSpec > ) -> ( ) \
         { unsafe { gu_mix ( a0 . data , a1 . data ) } ; }"
    );
}

#[test]
fn raw_rest_passes_bare_names() {
    let out = expand_defs_text("fn go(@_, i32, i32) => gu_go(@*)").unwrap();
    assert_eq!(
        out,
        "fn go ( a0 : i32 , a1 : i32 ) -> ( ) { unsafe { gu_go ( a0 , a1 ) } ; }"
    );
}

#[test]
fn bare_positional_marker() {
    let out = expand_defs_text("fn pick(@_, i32) => gu_pick(@0) -> @r Scm<IntSpec>").unwrap();
    assert_eq!(
        out,
        "fn pick ( a0 : i32 ) -> Scm < IntSpec > \
         { unsafe { Scm :: _from_raw ( gu_pick ( a0 ) ) } }"
    );
}

#[test]
fn public_visibility_is_copied() {
    let out = expand_defs_text("pub fn ping() => gu_ping(@s)").unwrap();
    assert_eq!(
        out,
        "pub fn ping ( & self ) -> ( ) { unsafe { gu_ping ( self . data ) } ; }"
    );
}

#[test]
fn attributes_are_copied() {
    let out = expand_defs_text("#[inline] fn ping() => gu_ping(@s)").unwrap();
    assert_eq!(
        out,
        "# [ inline ] fn ping ( & self ) -> ( ) { unsafe { gu_ping ( self . data ) } ; }"
    );
}

#[test]
fn without_wrap_marker_raw_result_is_returned() {
    let out = expand_defs_text("fn bits() => gu_bits(@s) -> u64").unwrap();
    assert_eq!(
        out,
        "fn bits ( & self ) -> u64 { unsafe { gu_bits ( self . data ) } }"
    );
}

#[test]
fn explicit_unit_return_is_statement() {
    let out = expand_defs_text("fn poke() => gu_poke(@s) -> ()").unwrap();
    assert_eq!(
        out,
        "fn poke ( & self ) -> ( ) { unsafe { gu_poke ( self . data ) } ; }"
    );
}

#[test]
fn batch_of_two_declarations() {
    let out = expand_defs_text("fn a() => f(@s); fn b() => g(@s);").unwrap();
    assert_eq!(
        out,
        "fn a ( & self ) -> ( ) { unsafe { f ( self . data ) } ; } \
         fn b ( & self ) -> ( ) { unsafe { g ( self . data ) } ; }"
    );
}

#[test]
fn empty_batch_generates_nothing() {
    assert_eq!(expand_defs_text("").unwrap(), "");
}

#[test]
fn comments_are_skipped() {
    let out = expand_defs_text("// a note\nfn a() => f(@s)").unwrap();
    assert_eq!(out, "fn a ( & self ) -> ( ) { unsafe { f ( self . data ) } ; }");
}

#[test]
fn generating_twice_is_byte_identical() {
    let input = "fn cons(@_, &Scm<A>|A:TypeSpec, &Scm<B>|B:TypeSpec) => gu_scm_cons(@*#) -> @r Scm<PairSpec>";
    let first = expand_defs(input.as_bytes()).unwrap();
    let second = expand_defs(input.as_bytes()).unwrap();
    assert_eq!(first, second);
}

#[test]
fn impl_block_keeps_handwritten_items() {
    let out = expand_impl_text(
        "Scm<PairSpec> {\n\
         pub fn car() => gu_scm_car(@s) -> @r Scm<UnspecifiedSpec>\n\
         pub fn manual(&self) -> u64 { 7 }\n\
         }",
    )
    .unwrap();
    assert_eq!(
        out,
        "impl Scm < PairSpec > { \
         pub fn car ( & self ) -> Scm < UnspecifiedSpec > \
         { unsafe { Scm :: _from_raw ( gu_scm_car ( self . data ) ) } } \
         pub fn manual ( & self ) -> u64 { 7 } }"
    );
}

#[test]
fn impl_block_declaration_with_separator() {
    let out = expand_impl_text("Scm<ListSpec> { fn length() => gu_length(@s) -> @r Scm<IntSpec>; }")
        .unwrap();
    assert_eq!(
        out,
        "impl Scm < ListSpec > { fn length ( & self ) -> Scm < IntSpec > \
         { unsafe { Scm :: _from_raw ( gu_length ( self . data ) ) } } }"
    );
}

#[test]
fn unterminated_string_is_a_lexical_error() {
    assert_eq!(expand_defs_text("fn a() => f(\"oops"), Err(Error::Lex));
}

#[test]
fn missing_arrow_is_a_parse_error() {
    assert_eq!(expand_defs_text("fn a() f(@s)"), Err(Error::Parse));
}

#[test]
fn unterminated_parens_is_a_parse_error() {
    assert_eq!(expand_defs_text("fn a( => f(@s)"), Err(Error::Parse));
}

#[test]
fn leftover_input_is_a_parse_error() {
    assert_eq!(expand_defs_text("fn a() => f(@s) fn"), Err(Error::Parse));
}

#[test]
fn receiver_after_first_position_is_refused() {
    assert_eq!(
        expand_defs_text("fn a(i32, &self) => f(@*)"),
        Err(Error::Parse)
    );
}

#[test]
fn two_rest_placeholders_are_refused() {
    assert_eq!(
        expand_defs_text("fn a(i32, i32) => f(@*, @*)"),
        Err(Error::Parse)
    );
}

#[test]
fn marker_out_of_range_is_refused() {
    assert_eq!(expand_defs_text("fn a(i32) => f(@5#)"), Err(Error::ParamRef));
}

#[test]
fn clashing_type_parameters_are_refused() {
    assert_eq!(
        expand_defs_text("fn a(Scm<A>|A:TypeSpec, Scm<B>|A:TypeSpec) => f(@*#)"),
        Err(Error::BoundClash)
    );
}

#[test]
fn unrecognized_marker_stays_literal() {
    // `@q` is no marker: the tokens stay as written
    let out = expand_defs_text("fn odd() => f(@q)").unwrap();
    assert_eq!(out, "fn odd ( & self ) -> ( ) { unsafe { f ( @ q ) } ; }");
}

#[test]
fn source_rewrite_replaces_invocation_bodies() {
    let source = "mod scm;\n\
                  guile_impl!(Scm<PairSpec> {\n\
                  fn car() => gu_scm_car(@s) -> @r Scm<UnspecifiedSpec>\n\
                  });";
    let out = guile_rs::driver::rewrite_source(source.as_bytes()).unwrap();
    assert_eq!(
        String::from_utf8(out).unwrap(),
        "mod scm ; guile_impl ! ( \
         impl Scm < PairSpec > { fn car ( & self ) -> Scm < UnspecifiedSpec > \
         { unsafe { Scm :: _from_raw ( gu_scm_car ( self . data ) ) } } } ) ;"
    );
}

#[test]
fn source_rewrite_expands_batch_invocations() {
    let source = "guile_defs! { fn a() => f(@s); }";
    let out = guile_rs::driver::rewrite_source(source.as_bytes()).unwrap();
    assert_eq!(
        String::from_utf8(out).unwrap(),
        "guile_defs ! { fn a ( & self ) -> ( ) { unsafe { f ( self . data ) } ; } }"
    );
}

#[test]
fn source_without_invocations_passes_through() {
    let source = "fn main() { run(); }";
    let out = guile_rs::driver::rewrite_source(source.as_bytes()).unwrap();
    assert_eq!(String::from_utf8(out).unwrap(), "fn main ( ) { run ( ) ; }");
}

#[test]
fn source_rewrite_reports_bad_declarations() {
    let source = "guile_defs! { fn broken( }";
    assert_eq!(
        guile_rs::driver::rewrite_source(source.as_bytes()),
        Err(Error::Parse)
    );
}

#[test]
fn immediate_with_nested_call_and_closure() {
    let out = expand_defs_text(
        "fn m_ref(Scm<KS>|KS:TypeSpec, Option<Scm<DS>>|DS:TypeSpec) \
         => scm_hash_ref(@s, @0#, @1.map_or(ptr::null_mut(), |d| d.data)) \
         -> @r Scm<UnspecifiedSpec>",
    )
    .unwrap();
    assert_eq!(
        out,
        "fn m_ref < KS : TypeSpec , DS : TypeSpec > \
         ( & self , a0 : Scm < KS > , a1 : Option < Scm < DS > > ) -> Scm < UnspecifiedSpec > \
         { unsafe { Scm :: _from_raw ( scm_hash_ref ( self . data , a0 . data , \
         a1 . map_or ( ptr :: null_mut ( ) , | d | d . data ) ) ) } }"
    );
}

#[test]
fn immediate_with_conversion_chain() {
    let out = expand_defs_text(
        "pub fn from_str(@_, &str) => scm_from_utf8_string(CString::new(@0).unwrap().as_ptr()) \
         -> @r Scm<StringSpec>",
    )
    .unwrap();
    assert_eq!(
        out,
        "pub fn from_str ( a0 : & str ) -> Scm < StringSpec > \
         { unsafe { Scm :: _from_raw ( scm_from_utf8_string ( \
         CString :: new ( a0 ) . unwrap ( ) . as_ptr ( ) ) ) } }"
    );
}

#[test]
fn non_wrap_marker_ident_is_consumed_without_wrapping() {
    let out = expand_defs_text("fn a() => f(@s) -> @q u64").unwrap();
    assert_eq!(out, "fn a ( & self ) -> u64 { unsafe { f ( self . data ) } }");
}

#[test]
fn declared_reference_receiver() {
    let out = expand_defs_text("fn probe(&self) => g(@s)").unwrap();
    assert_eq!(
        out,
        "fn probe ( & self ) -> ( ) { unsafe { g ( self . data ) } ; }"
    );
}

#[test]
fn declared_value_receiver() {
    let out = expand_defs_text("fn consume(self) => g(@s)").unwrap();
    assert_eq!(
        out,
        "fn consume ( self ) -> ( ) { unsafe { g ( self . data ) } ; }"
    );
}

#[test]
fn string_literals_pass_through() {
    let out = expand_defs_text("fn warn() => f(@s, \"be careful\")").unwrap();
    assert_eq!(
        out,
        "fn warn ( & self ) -> ( ) { unsafe { f ( self . data , \"be careful\" ) } ; }"
    );
}

#[test]
fn rewrite_of_a_module_like_source() {
    let source = "guile_impl! (Scm<ListSpec> {\n\
                  pub fn length() => scm_length(@s) -> @r Scm<IntSpec>\n\
                  pub fn m_ref(Scm<IntSpec>) => scm_list_ref(@s, @*#) -> @r Scm<UnspecifiedSpec>\n\
                  into_type!(into_pair, is_pair, PairSpec);\n\
                  })";
    let out = guile_rs::driver::rewrite_source(source.as_bytes()).unwrap();
    assert_eq!(
        String::from_utf8(out).unwrap(),
        "guile_impl ! ( impl Scm < ListSpec > { \
         pub fn length ( & self ) -> Scm < IntSpec > \
         { unsafe { Scm :: _from_raw ( scm_length ( self . data ) ) } } \
         pub fn m_ref ( & self , a0 : Scm < IntSpec > ) -> Scm < UnspecifiedSpec > \
         { unsafe { Scm :: _from_raw ( scm_list_ref ( self . data , a0 . data ) ) } } \
         into_type ! ( into_pair , is_pair , PairSpec ) ; } )"
    );
}
