# rusty_racer

A Ruby extension that embeds the V8 JavaScript engine, with its logic verified
by Verus.

* `src/` is the library. Every function in it is verified against its contract,
  on the strength of a few declared contracts of std functions on strings, and
  the proof functions whose names begin with `law_` state what holds of the
  library as a whole: that values keep their identities when they cross between
  the engines, that a Ruby value comes back from JavaScript as it was, that a
  realm is not taken away while a request runs in it, that every request is told
  of its own deadline and of no other.
* `app/` is the code around it: it owns the engine and Ruby's objects, performs
  what the library's machines ask for, and raises Ruby's exceptions. Nothing in
  it is verified.
* `tests/` runs the library on concrete values, against small engines made of
  plain data.

The engine is never called from the library. A request, a walk over an object
graph, a dynamic import or the load of a module graph is a machine: it gives the
next thing to do, and is told what came of it. Its contract says which step
follows which answer, for every answer that the engine can give.

Doubles travel through the library as their 64 bits.
