use redmoon::{exec_script, execute, exec_repl};
use redmoon::interpreter::Interpreter;

fn run(src: &str) -> Vec<String> {
    let out = exec_script(src.to_string());
    assert_eq!(out.error, None, "unexpected error for {:?}", src);
    out.output
}

fn run_err(src: &str) -> String {
    let out = exec_script(src.to_string());
    out.error.expect("expected an error")
}

#[test]
fn precedence_of_arithmetic() {
    assert_eq!(run("print(1 + 2 * 3)"), vec!["7"]);
}

#[test]
fn table_field_update() {
    assert_eq!(run("local t = {}; t.x = 10; t.x = t.x + 5; print(t.x)"), vec!["15"]);
}

#[test]
fn recursive_local_function() {
    let src = "local function f(n) if n <= 1 then return 1 end return n * f(n-1) end; print(f(5))";
    assert_eq!(run(src), vec!["120"]);
}

#[test]
fn closure_counter() {
    let src = "local c = (function() local i = 0; return function() i = i + 1; return i end end)(); print(c(), c(), c())";
    assert_eq!(run(src), vec!["1\t2\t3"]);
}

#[test]
fn add_metamethod() {
    let src = "local mt = { __add = function(a,b) return { v = a.v + b.v } end }; local a = setmetatable({v=3}, mt); local b = setmetatable({v=4}, mt); print((a+b).v)";
    assert_eq!(run(src), vec!["7"]);
}

#[test]
fn numeric_for_sum() {
    assert_eq!(run("local s = 0; for i = 1, 10 do s = s + i end; print(s)"), vec!["55"]);
}

#[test]
fn repeat_condition_sees_inner_local() {
    assert_eq!(run("local x = 1; repeat local x = x + 1; print(x) until x > 3"), vec!["2", "3", "4"]);
}

#[test]
fn short_circuit_skips_right_operand() {
    let src = "local n = 0; local function bump() n = n + 1; return true end; local a = false and bump(); local b = true or bump(); print(n, a, b)";
    assert_eq!(run(src), vec!["0\tfalse\ttrue"]);
}

#[test]
fn short_circuit_runs_selected_operand() {
    let src = "local n = 0; local function bump() n = n + 1; return 5 end; local a = true and bump(); local b = nil or bump(); print(n, a, b)";
    assert_eq!(run(src), vec!["2\t5\t5"]);
}

#[test]
fn assign_then_index_returns_value() {
    assert_eq!(run("local t = {}; t[1] = \"a\"; t.k = 2; t[t] = true; print(t[1], t.k, t[t])"), vec!["a\t2\ttrue"]);
}

#[test]
fn function_literals_are_distinct() {
    let src = "local function mk() return function() end end; local a = mk(); local b = mk(); print(a == b, a == a)";
    assert_eq!(run(src), vec!["false\ttrue"]);
}

#[test]
fn break_outside_loop_is_error() {
    assert_eq!(run_err("break"), "break outside loop");
}

#[test]
fn break_in_function_is_error() {
    assert_eq!(run_err("local function f() break end; f()"), "break outside loop");
}

#[test]
fn break_leaves_loop() {
    assert_eq!(run("local i = 0; while true do i = i + 1; if i == 3 then break end end; print(i)"), vec!["3"]);
}

#[test]
fn collectgarbage_keeps_reachable_tables() {
    let src = "local t = {1, 2, 3}; local u = {t}; collectgarbage(); print(#u[1], u[1][2])";
    assert_eq!(run(src), vec!["3\t2"]);
}

#[test]
fn collectgarbage_frees_unreachable_tables() {
    let mut interp = Interpreter::new();
    exec_repl("local a = {}; local b = {}; x = {}".to_string(), &mut interp).unwrap();
    exec_repl("collectgarbage()".to_string(), &mut interp).unwrap();
    let live = interp.gc.slots.iter().filter(|s| s.is_some()).count();
    // the globals, the table held by `x`, and the frame of the running chunk
    assert_eq!(live, 3);
}

#[test]
fn globals_persist_between_runs() {
    let mut interp = Interpreter::new();
    exec_repl("y = 41".to_string(), &mut interp).unwrap();
    exec_repl("print(y + 1)".to_string(), &mut interp).unwrap();
    assert_eq!(interp.take_output(), vec!["42"]);
    assert_eq!(interp.get_stack().len(), 0);
}

#[test]
fn stack_is_balanced_after_error() {
    let mut interp = Interpreter::new();
    let r = exec_repl("local function f() do local z = nil + 1 end end; f()".to_string(), &mut interp);
    assert!(r.is_err());
    assert_eq!(interp.get_stack().len(), 0);
}

#[test]
fn display_forms() {
    assert_eq!(run("print(nil, true, false, 2.5, \"s\", print, {} ~= nil)"), vec!["nil\ttrue\tfalse\t2.5\ts\t<native function>\ttrue"]);
    assert_eq!(run("print(function() end)"), vec!["<function>"]);
    assert_eq!(run("print({})"), vec!["<table>"]);
}

#[test]
fn number_display_round_trips() {
    assert_eq!(run("print(7 / 2, 10 / 4, 1 / 8, 0.5 + 0.25, -3)"), vec!["3.5\t2.5\t0.125\t0.75\t-3"]);
}

#[test]
fn modulo_takes_sign_of_divisor() {
    assert_eq!(run("print(7 % 3, -7 % 3, 7 % -3)"), vec!["1\t2\t-2"]);
}

#[test]
fn division_by_zero_is_error() {
    assert_eq!(run_err("print(1 / 0)"), "division by zero");
}

#[test]
fn arithmetic_on_nil_is_error() {
    assert_eq!(run_err("print(nil + 1)"), "attempt to perform arithmetic on a nil value");
}

#[test]
fn calling_nil_is_error() {
    assert_eq!(run_err("f()"), "attempt to call a nil value");
}

#[test]
fn indexing_number_is_error() {
    assert_eq!(run_err("local x = 1; print(x.y)"), "attempt to index a number value");
}

#[test]
fn varargs_outside_vararg_function_is_error() {
    assert_eq!(run_err("print(...)"), "cannot use '...' outside a vararg function");
}

#[test]
fn varargs_expand() {
    assert_eq!(run("local function f(a, ...) return ... end; print(f(1, 2, 3))"), vec!["2\t3"]);
}

#[test]
fn multiple_assignment() {
    assert_eq!(run("local a, b, c = 1, 2; a, b = b, a; print(a, b, c)"), vec!["2\t1\tnil"]);
}

#[test]
fn assert_failure_message() {
    assert_eq!(run_err("assert(false)"), "Assertion failed!");
    assert_eq!(run_err("assert(nil, \"boom\")"), "boom");
    assert_eq!(run("print(assert(1, 2))"), vec!["1\t2"]);
}

#[test]
fn getmetatable_returns_set_metatable() {
    assert_eq!(run("local m = {}; local t = setmetatable({}, m); print(getmetatable(t) == m, getmetatable({}))"), vec!["true\tnil"]);
}

#[test]
fn index_and_newindex_metamethods() {
    let src = "local base = {greet = \"hi\"}; local t = setmetatable({}, {__index = base}); print(t.greet, t.other)";
    assert_eq!(run(src), vec!["hi\tnil"]);
    let src = "local log = {}; local t = setmetatable({}, {__newindex = log}); t.a = 1; print(t.a, log.a)";
    assert_eq!(run(src), vec!["nil\t1"]);
}

#[test]
fn comparison_metamethods() {
    let src = "local mt = {__lt = function(a, b) return a.v < b.v end}; local a = setmetatable({v=1}, mt); local b = setmetatable({v=2}, mt); print(a < b, b < a, a <= b)";
    assert_eq!(run(src), vec!["true\tfalse\ttrue"]);
}

#[test]
fn string_concat_and_length() {
    assert_eq!(run("local s = \"ab\" .. \"cd\" .. 1; print(s, #s)"), vec!["abcd1\t5"]);
}

#[test]
fn long_strings_and_comments() {
    let src = "-- a comment\nlocal s = [==[x]]y]==] --[[ long\ncomment ]] print(s)";
    assert_eq!(run(src), vec!["x]]y"]);
}

#[test]
fn if_elseif_else() {
    let src = "for i = 1, 3 do if i == 1 then print(\"one\") elseif i == 2 then print(\"two\") else print(\"many\") end end";
    assert_eq!(run(src), vec!["one", "two", "many"]);
}

#[test]
fn for_with_negative_step() {
    assert_eq!(run("for i = 3, 1, -1 do print(i) end"), vec!["3", "2", "1"]);
}

#[test]
fn for_step_zero_is_error() {
    assert_eq!(run_err("for i = 1, 2, 0 do end"), "'for' step is zero");
}

#[test]
fn truthiness_of_zero_and_empty_string() {
    assert_eq!(run("print(not 0, not \"\", not nil)"), vec!["false\tfalse\ttrue"]);
}

#[test]
fn table_constructor_positions() {
    assert_eq!(run("local t = {10, x = 1, 20, [5] = 50}; print(t[1], t[2], t.x, t[5], #t)"), vec!["10\t20\t1\t50\t2"]);
}

#[test]
fn unterminated_string_is_lex_error() {
    let out = execute("print(\"abc");
    assert_eq!(out.error, Some("Error lexing: unfinished string".to_string()));
}

#[test]
fn goto_is_parse_error() {
    let out = execute("goto x");
    assert_eq!(out.error, Some("Error parsing: 'goto' is not supported".to_string()));
}

#[test]
fn nameless_function_statement_is_parse_error() {
    let out = execute("function () end");
    assert!(out.error.unwrap().starts_with("Error parsing"));
}

#[test]
fn output_before_error_is_kept() {
    let out = execute("print(1) print(nil .. 1)");
    assert_eq!(out.output, vec!["1"]);
    assert_eq!(out.error, Some("attempt to concatenate a nil value".to_string()));
}

#[test]
fn builtins_return_nil() {
    assert_eq!(run("print(collectgarbage(), print())"), vec!["", "nil\tnil"]);
}

#[test]
fn comparing_non_numbers_is_error() {
    assert_eq!(run_err("print({} < 1)"), "attempt to compare a table value");
    assert_eq!(run_err("print(\"a\" <= \"b\")"), "attempt to compare a string value");
}

#[test]
fn negating_non_number_is_error() {
    assert_eq!(run_err("print(-{})"), "attempt to perform arithmetic on a table value");
}

#[test]
fn length_of_number_is_error() {
    assert_eq!(run_err("print(#5)"), "attempt to get length of a number value");
}

#[test]
fn unm_and_concat_metamethods() {
    let src = "local mt = {__unm = function(a) return \"neg\" end, __concat = function(a, b) return \"cat\" end}; local t = setmetatable({}, mt); print(-t, t .. \"x\", 1 .. t)";
    assert_eq!(run(src), vec!["neg\tcat\tcat"]);
}

#[test]
fn eq_metamethod_needs_shared_handler() {
    let src = "local h = function(a, b) return true end; local m1 = {__eq = h}; local m2 = {__eq = h}; local m3 = {__eq = function(a, b) return true end}; local a = setmetatable({}, m1); local b = setmetatable({}, m2); local c = setmetatable({}, m3); print(a == b, a == c, a ~= b)";
    assert_eq!(run(src), vec!["true\tfalse\tfalse"]);
}

#[test]
fn le_falls_back_to_lt() {
    let src = "local mt = {__lt = function(a, b) return a.v < b.v end}; local a = setmetatable({v=1}, mt); local b = setmetatable({v=1}, mt); print(a <= b, a >= b)";
    assert_eq!(run(src), vec!["true\ttrue"]);
}

#[test]
fn index_metamethod_function() {
    let src = "local t = setmetatable({}, {__index = function(t, k) return k .. \"!\" end}); print(t.hey)";
    assert_eq!(run(src), vec!["hey!"]);
}

#[test]
fn closures_share_frame() {
    let src = "local function mk() local n = 0; local function inc() n = n + 1 end; local function get() return n end; return inc, get end; local inc, get = mk(); inc(); inc(); print(get())";
    assert_eq!(run(src), vec!["2"]);
}

#[test]
fn globals_are_late_bound() {
    assert_eq!(run("local function f() return g() end; function g() return 9 end; print(f())"), vec!["9"]);
}

#[test]
fn function_statement_with_field_name() {
    assert_eq!(run("local t = {}; function t.add(a, b) return a + b end; print(t.add(2, 3))"), vec!["5"]);
}

#[test]
fn string_call_and_table_call_sugar() {
    assert_eq!(run("local function id(x) return x end; print(id \"s\", id{1}[1])"), vec!["s\t1"]);
}

#[test]
fn varargs_survive_collection() {
    let src = "local function f(...) collectgarbage(); local a, b = ...; return a[1], b end; print(f({7}, 8))";
    assert_eq!(run(src), vec!["7\t8"]);
}

#[test]
fn string_length_counts_bytes() {
    assert_eq!(run("print(#\"é\", #\"\", #\"ab\")"), vec!["2\t0\t2"]);
}
