# starbeam

The game rules of Starbeam, a 2D sandbox game, as a verified library, with
the Bevy program around it.

- `src/` is the library, written in Verus: inventory bags, equipment and
  hotbar; item, object, fluid and liquid registries; object placement rules,
  footprints and animation frames; liquid sleep tracking, reactions and the
  liquid field texture (box blur); fluid activity, reactions and chunk
  addressing; the block and interaction key rules; crack textures. Every
  function carries a contract that Verus proves.
- `tests/` runs the library on concrete cases.
- `app/` is the Bevy program: data-file forms of the definitions (serde),
  the systems that read input and call the library, and the simulations that
  compute on fractional quantities (liquid automaton, particle fluid, surface
  waves, pickup distances).
